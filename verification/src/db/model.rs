//! The metadata store as mathematics: seven tables, each a map from its
//! primary key, the rules that hold between them, and one function from
//! state to state for every operation of the store.
use vstd::prelude::*;
use crate::ranges::{covered_by, covers};
use crate::text::lex_lt;

verus! {

/// Seconds in a day: the unit of the grace period of tombstones.
pub const SECONDS_PER_DAY: i64 = 86400;

/// The inode of the filesystem root.
pub const ROOT_INODE: u64 = 1;

/// The greatest inode number that the store hands out.
pub const MAX_INODE: u64 = 0x7fff_ffff_ffff_ffff;

/// The remote id of the root.
pub open spec fn root_id() -> Seq<char> {
    "root"@
}

/// The mime type of a remote folder.
pub open spec fn folder_mime() -> Seq<char> {
    "application/vnd.google-apps.folder"@
}

/// A row of the inode table, without its key.
pub struct InodeModel {
    pub remote_id: Seq<char>,
    pub generation: i64,
    pub created_at: i64,
}

/// A row of the attribute table, without its key.
pub struct AttrsModel {
    pub size: i64,
    pub mtime: i64,
    pub ctime: i64,
    pub mode: i64,
    pub is_dir: bool,
    pub mime_type: Option<Seq<char>>,
}

/// A soft-deleted directory entry: where the child stood, and since when it
/// is gone.
pub struct TombstoneModel {
    pub parent: u64,
    pub name: Seq<char>,
    pub deleted_at: i64,
}

/// The push and pull bookkeeping of one inode.
pub struct SyncModel {
    pub dirty: bool,
    pub version: i64,
    pub remote_md5: Option<Seq<char>>,
    pub deleted_at: Option<i64>,
}

/// A value of the key/value table.
pub struct MetaModel {
    pub value: Seq<char>,
    pub updated_at: i64,
}

/// The whole store.
///
/// `dentries` maps `(parent, name)` to the child, `tombstones` maps the child
/// to its former place, `chunks` maps `(inode, start)` to the inclusive end
/// of a cached range.
#[verifier::ext_equal]
pub struct StoreModel {
    pub inodes: Map<u64, InodeModel>,
    pub next_inode: u64,
    pub attrs: Map<u64, AttrsModel>,
    pub dentries: Map<(u64, Seq<char>), u64>,
    pub tombstones: Map<u64, TombstoneModel>,
    pub sync: Map<u64, SyncModel>,
    pub chunks: Map<(u64, u64), u64>,
    pub meta: Map<Seq<char>, MetaModel>,
}

/// The sync row of an inode that had none, as a local change creates it.
pub open spec fn fresh_sync() -> SyncModel {
    SyncModel { dirty: false, version: 0, remote_md5: None, deleted_at: None }
}

impl StoreModel {
    /// The store with no row at all.
    pub open spec fn empty() -> StoreModel {
        StoreModel {
            inodes: Map::empty(),
            next_inode: 2,
            attrs: Map::empty(),
            dentries: Map::empty(),
            tombstones: Map::empty(),
            sync: Map::empty(),
            chunks: Map::empty(),
            meta: Map::empty(),
        }
    }

    // ------------------------------------------------------------------
    // The rules
    // ------------------------------------------------------------------
    /// No two inodes share a remote id.
    pub open spec fn remote_ids_unique(self) -> bool {
        forall|i: u64, j: u64|
            self.inodes.contains_key(i) && self.inodes.contains_key(j) && (
            #[trigger] self.inodes[i]).remote_id == (#[trigger] self.inodes[j]).remote_id ==> i
                == j
    }

    /// Inode numbers are handed out in ascending order and never reused: every
    /// inode is below the next one to be assigned, and 1 is kept for the root.
    pub open spec fn inodes_below_next(self) -> bool {
        &&& 2 <= self.next_inode <= MAX_INODE + 1
        &&& forall|i: u64| #[trigger] self.inodes.contains_key(i) ==> 1 <= i < self.next_inode
    }

    /// Every inode that a row of another table names has a row of its own.
    pub open spec fn references_resolve(self) -> bool {
        &&& forall|i: u64| #[trigger] self.attrs.contains_key(i) ==> self.inodes.contains_key(i)
        &&& forall|i: u64| #[trigger] self.sync.contains_key(i) ==> self.inodes.contains_key(i)
        &&& forall|k: (u64, Seq<char>)| #[trigger]
            self.dentries.contains_key(k) ==> self.inodes.contains_key(k.0)
                && self.inodes.contains_key(self.dentries[k])
        &&& forall|k: (u64, u64)| #[trigger]
            self.chunks.contains_key(k) ==> self.inodes.contains_key(k.0)
        &&& forall|c: u64| #[trigger]
            self.tombstones.contains_key(c) ==> self.inodes.contains_key(c)
                && self.inodes.contains_key(self.tombstones[c].parent)
    }

    /// A child stands under at most one `(parent, name)`.
    pub open spec fn children_unique(self) -> bool {
        forall|a: (u64, Seq<char>), b: (u64, Seq<char>)|
            self.dentries.contains_key(a) && self.dentries.contains_key(b) && (
            #[trigger] self.dentries[a]) == (#[trigger] self.dentries[b]) ==> a == b
    }

    /// No inode is visible and soft-deleted at once.
    pub open spec fn visible_xor_deleted(self) -> bool {
        forall|k: (u64, Seq<char>)| #[trigger]
            self.dentries.contains_key(k) ==> !self.tombstones.contains_key(self.dentries[k])
    }

    /// A directory has no cached chunk.
    pub open spec fn directories_uncached(self) -> bool {
        forall|k: (u64, u64)| #[trigger]
            self.chunks.contains_key(k) ==> !(self.attrs.contains_key(k.0)
                && self.attrs[k.0].is_dir)
    }

    /// No cached chunk is empty.
    pub open spec fn chunks_well_formed(self) -> bool {
        forall|k: (u64, u64)| #[trigger] self.chunks.contains_key(k) ==> k.1 <= self.chunks[k]
    }

    /// All the rules of the store.
    pub open spec fn wf(self) -> bool {
        &&& self.remote_ids_unique()
        &&& self.inodes_below_next()
        &&& self.references_resolve()
        &&& self.children_unique()
        &&& self.visible_xor_deleted()
        &&& self.directories_uncached()
        &&& self.chunks_well_formed()
    }

    // ------------------------------------------------------------------
    // Queries
    // ------------------------------------------------------------------
    /// Some inode has the remote id `remote_id`.
    pub open spec fn knows(self, remote_id: Seq<char>) -> bool {
        exists|i: u64|
            self.inodes.contains_key(i) && (#[trigger] self.inodes[i]).remote_id == remote_id
    }

    /// The inode with the remote id `remote_id`.
    pub open spec fn inode_of(self, remote_id: Seq<char>) -> u64 {
        choose|i: u64|
            self.inodes.contains_key(i) && (#[trigger] self.inodes[i]).remote_id == remote_id
    }

    /// The inode with the remote id `remote_id`, if there is one.
    pub open spec fn find_inode(self, remote_id: Seq<char>) -> Option<u64> {
        if self.knows(remote_id) {
            Some(self.inode_of(remote_id))
        } else {
            None
        }
    }

    /// The child that stands under `(parent, name)`, if any.
    pub open spec fn lookup(self, parent: u64, name: Seq<char>) -> Option<u64> {
        if self.dentries.contains_key((parent, name)) {
            Some(self.dentries[(parent, name)])
        } else {
            None
        }
    }

    /// The inode `child` is visible: some directory entry leads to it.
    pub open spec fn is_linked(self, child: u64) -> bool {
        exists|k: (u64, Seq<char>)|
            self.dentries.contains_key(k) && #[trigger] self.dentries[k] == child
    }

    /// The `(parent, name)` under which `child` stands.
    pub open spec fn link_of(self, child: u64) -> (u64, Seq<char>) {
        choose|k: (u64, Seq<char>)|
            self.dentries.contains_key(k) && #[trigger] self.dentries[k] == child
    }

    /// The directory entries without the one that leads to `child`.
    pub open spec fn dentries_without(self, child: u64) -> Map<(u64, Seq<char>), u64> {
        if self.is_linked(child) {
            self.dentries.remove(self.link_of(child))
        } else {
            self.dentries
        }
    }

    /// The names that stand under `parent`.
    pub open spec fn names_under(self, parent: u64) -> Set<Seq<char>> {
        Set::new(|name: Seq<char>| self.dentries.contains_key((parent, name)))
    }

    /// The entry under `(parent, name)` shows in listings: it exists, and its
    /// child has attributes.
    pub open spec fn listed(self, parent: u64, name: Seq<char>) -> bool {
        &&& self.dentries.contains_key((parent, name))
        &&& self.attrs.contains_key(self.dentries[(parent, name)])
        &&& self.inodes.contains_key(self.dentries[(parent, name)])
    }

    /// What a listing says of the entry under `(parent, name)`: the child's
    /// inode, the name, whether it is a directory, its mime type and its
    /// remote id.
    pub open spec fn child_entry(self, parent: u64, name: Seq<char>) -> (
        u64,
        Seq<char>,
        bool,
        Option<Seq<char>>,
        Seq<char>,
    ) {
        let c = self.dentries[(parent, name)];
        (c, name, self.attrs[c].is_dir, self.attrs[c].mime_type, self.inodes[c].remote_id)
    }

    /// `out` lists the children of `parent` that have attributes, each once
    /// and by ascending name.
    pub open spec fn is_listing_extended(
        self,
        parent: u64,
        out: Seq<(u64, Seq<char>, bool, Option<Seq<char>>, Seq<char>)>,
    ) -> bool {
        &&& forall|i: int|
            0 <= i < out.len() ==> self.listed(parent, (#[trigger] out[i]).1) && out[i]
                == self.child_entry(parent, out[i].1)
        &&& forall|name: Seq<char>| #[trigger]
            self.listed(parent, name) ==> exists|i: int|
                0 <= i < out.len() && (#[trigger] out[i]).1 == name
        &&& forall|i: int, j: int|
            0 <= i < j < out.len() ==> lex_lt((#[trigger] out[i]).1, (#[trigger] out[j]).1)
    }

    /// `out` lists the children of `parent` that have attributes, each once,
    /// as `(inode, name, is_dir)` and by ascending name.
    pub open spec fn is_listing(self, parent: u64, out: Seq<(u64, Seq<char>, bool)>) -> bool {
        &&& forall|i: int|
            0 <= i < out.len() ==> self.listed(parent, (#[trigger] out[i]).1) && out[i] == (
                self.child_entry(parent, out[i].1).0,
                out[i].1,
                self.child_entry(parent, out[i].1).2,
            )
        &&& forall|name: Seq<char>| #[trigger]
            self.listed(parent, name) ==> exists|i: int|
                0 <= i < out.len() && (#[trigger] out[i]).1 == name
        &&& forall|i: int, j: int|
            0 <= i < j < out.len() ==> lex_lt((#[trigger] out[i]).1, (#[trigger] out[j]).1)
    }

    /// `out` lists the inodes that have a local change to push, each once,
    /// as `(inode, remote id, whether the change is a deletion)`.
    pub open spec fn is_dirty_list(self, out: Seq<(u64, Seq<char>, bool)>) -> bool {
        &&& forall|i: int|
            0 <= i < out.len() ==> {
                let e = #[trigger] out[i];
                &&& self.sync.contains_key(e.0)
                &&& self.sync[e.0].dirty
                &&& self.inodes.contains_key(e.0)
                &&& e.1 == self.inodes[e.0].remote_id
                &&& e.2 == (self.sync[e.0].deleted_at is Some)
            }
        &&& forall|inode: u64|
            #[trigger] self.sync.contains_key(inode) && self.sync[inode].dirty ==> exists|i: int|
                0 <= i < out.len() && (#[trigger] out[i]).0 == inode
        &&& forall|i: int, j: int|
            0 <= i < j < out.len() ==> (#[trigger] out[i]).0 != (#[trigger] out[j]).0
    }

    /// Some chunk of `inode` holds the offset `x`.
    pub open spec fn cached(self, inode: u64, x: int) -> bool {
        exists|start: u64| #[trigger]
            self.chunks.contains_key((inode, start)) && start <= x <= self.chunks[(inode, start)]
    }

    /// The inode `inode` has at least one chunk.
    pub open spec fn has_chunks(self, inode: u64) -> bool {
        exists|start: u64| #[trigger] self.chunks.contains_key((inode, start))
    }

    /// `out` is the list of gaps that the chunks of `inode` leave in
    /// `[start, end]`: non-empty ranges, sorted, disjoint and coalesced, that
    /// hold exactly the offsets of `[start, end]` that no chunk holds.
    pub open spec fn is_missing(self, inode: u64, start: u64, end: u64, out: Seq<(u64, u64)>) -> bool {
        &&& crate::ranges::well_formed(out)
        &&& crate::ranges::separated(out)
        &&& crate::ranges::within(out, start, end)
        &&& forall|x: int|
            #![trigger covered_by(out, x)]
            #![trigger self.cached(inode, x)]
            start <= x <= end ==> (covered_by(out, x) <==> !self.cached(inode, x))
    }

    /// The tombstone of `child` is older than the grace period allows.
    pub open spec fn expired(self, child: u64, grace_days: i64, now: i64) -> bool {
        self.tombstones.contains_key(child) && self.tombstones[child].deleted_at < now - grace_days
            * SECONDS_PER_DAY
    }

    /// The inodes whose tombstone has expired.
    pub open spec fn expired_set(self, grace_days: i64, now: i64) -> Set<u64> {
        Set::new(|c: u64| self.expired(c, grace_days, now))
    }

    // ------------------------------------------------------------------
    // Operations
    // ------------------------------------------------------------------
    /// A new inode row under a given number.
    pub open spec fn insert_inode(self, inode: u64, remote_id: Seq<char>, now: i64) -> StoreModel {
        StoreModel {
            inodes: self.inodes.insert(
                inode,
                InodeModel { remote_id, generation: 0, created_at: now },
            ),
            next_inode: if inode >= self.next_inode {
                (inode + 1) as u64
            } else {
                self.next_inode
            },
            ..self
        }
    }

    /// The root's attributes: a directory of nominal size, mode `0o755`, with
    /// the mime type of a remote folder.
    pub open spec fn root_attrs(now: i64) -> AttrsModel {
        AttrsModel {
            size: 4096,
            mtime: now,
            ctime: now,
            mode: 0o755,
            is_dir: true,
            mime_type: Some(folder_mime()),
        }
    }

    /// The root can be installed, or is there already: inode 1 is free or the
    /// root's, no other inode has the root's remote id, and inode 1 has no
    /// cached chunk unless it has attributes already.
    pub open spec fn root_installable(self) -> bool {
        &&& self.inodes.contains_key(ROOT_INODE) ==> self.inodes[ROOT_INODE].remote_id == root_id()
        &&& self.knows(root_id()) ==> self.inode_of(root_id()) == ROOT_INODE
        &&& !self.attrs.contains_key(ROOT_INODE) ==> !self.has_chunks(ROOT_INODE)
    }

    /// Installs inode 1 with the root's attributes, where they are missing.
    pub open spec fn ensure_root(self, now: i64) -> StoreModel {
        let with_inode = if self.inodes.contains_key(ROOT_INODE) {
            self
        } else {
            self.insert_inode(ROOT_INODE, root_id(), now)
        };
        if with_inode.attrs.contains_key(ROOT_INODE) {
            with_inode
        } else {
            StoreModel {
                attrs: with_inode.attrs.insert(ROOT_INODE, Self::root_attrs(now)),
                ..with_inode
            }
        }
    }

    /// The inode for `remote_id`: the one that has it, or else the next
    /// number, with a new row.
    pub open spec fn get_or_create_inode(self, remote_id: Seq<char>, now: i64) -> (StoreModel, u64) {
        if self.knows(remote_id) {
            (self, self.inode_of(remote_id))
        } else {
            (self.insert_inode(self.next_inode, remote_id, now), self.next_inode)
        }
    }

    /// Writes the whole attribute row of `inode`. A new row takes `mtime` as
    /// its `ctime`; an old one keeps its `ctime`.
    pub open spec fn upsert_attrs(
        self,
        inode: u64,
        size: i64,
        mtime: i64,
        mode: i64,
        is_dir: bool,
        mime_type: Option<Seq<char>>,
    ) -> StoreModel {
        let ctime = if self.attrs.contains_key(inode) {
            self.attrs[inode].ctime
        } else {
            mtime
        };
        StoreModel {
            attrs: self.attrs.insert(
                inode,
                AttrsModel { size, mtime, ctime, mode, is_dir, mime_type },
            ),
            ..self
        }
    }

    /// Changes the given fields of the attribute row of `inode`, if it has one.
    pub open spec fn patch_attrs(
        self,
        inode: u64,
        size: Option<i64>,
        mtime: Option<i64>,
        mode: Option<i64>,
    ) -> StoreModel {
        if self.attrs.contains_key(inode) {
            let a = self.attrs[inode];
            StoreModel {
                attrs: self.attrs.insert(
                    inode,
                    AttrsModel {
                        size: if size is Some { size->0 } else { a.size },
                        mtime: if mtime is Some { mtime->0 } else { a.mtime },
                        mode: if mode is Some { mode->0 } else { a.mode },
                        ..a
                    },
                ),
                ..self
            }
        } else {
            self
        }
    }

    /// Puts `child` under `(parent, name)`. Whatever stood there is replaced,
    /// and `child` leaves the place where it stood before.
    pub open spec fn upsert_dentry(self, parent: u64, child: u64, name: Seq<char>) -> StoreModel {
        StoreModel { dentries: self.dentries_without(child).insert((parent, name), child), ..self }
    }

    /// Removes the entry under `(parent, name)`.
    pub open spec fn remove_dentry(self, parent: u64, name: Seq<char>) -> StoreModel {
        StoreModel { dentries: self.dentries.remove((parent, name)), ..self }
    }

    /// Stores `value` under `key`.
    pub open spec fn set_sync_meta(self, key: Seq<char>, value: Seq<char>, now: i64) -> StoreModel {
        StoreModel { meta: self.meta.insert(key, MetaModel { value, updated_at: now }), ..self }
    }

    /// The attributes of `inode`; for the root, where it has none, those of a
    /// fresh root.
    pub open spec fn attrs_or_root(self, inode: u64, now: i64) -> Option<AttrsModel> {
        if self.attrs.contains_key(inode) {
            Some(self.attrs[inode])
        } else if inode == ROOT_INODE {
            Some(Self::root_attrs(now))
        } else {
            None
        }
    }

    /// The value under `key`, if any.
    pub open spec fn get_sync_meta(self, key: Seq<char>) -> Option<Seq<char>> {
        if self.meta.contains_key(key) {
            Some(self.meta[key].value)
        } else {
            None
        }
    }

    /// The sync row of `inode`, or a fresh one.
    pub open spec fn sync_or_fresh(self, inode: u64) -> SyncModel {
        if self.sync.contains_key(inode) {
            self.sync[inode]
        } else {
            fresh_sync()
        }
    }

    /// The last checksum that the remote was seen to have for `inode`.
    pub open spec fn get_remote_md5(self, inode: u64) -> Option<Seq<char>> {
        if self.sync.contains_key(inode) {
            self.sync[inode].remote_md5
        } else {
            None
        }
    }

    /// Records the remote checksum of `inode`.
    pub open spec fn set_remote_md5(self, inode: u64, md5: Seq<char>) -> StoreModel {
        StoreModel {
            sync: self.sync.insert(
                inode,
                SyncModel { remote_md5: Some(md5), ..self.sync_or_fresh(inode) },
            ),
            ..self
        }
    }

    /// Marks `inode` as changed locally and not yet pushed.
    pub open spec fn mark_dirty(self, inode: u64) -> StoreModel {
        StoreModel {
            sync: self.sync.insert(inode, SyncModel { dirty: true, ..self.sync_or_fresh(inode) }),
            ..self
        }
    }

    /// Marks `inode` as pushed, if it has a sync row.
    pub open spec fn mark_clean(self, inode: u64) -> StoreModel {
        if self.sync.contains_key(inode) {
            StoreModel {
                sync: self.sync.insert(inode, SyncModel { dirty: false, ..self.sync[inode] }),
                ..self
            }
        } else {
            self
        }
    }

    /// Forgets that `inode` is to be deleted remotely, if it has a sync row.
    pub open spec fn clear_deleted(self, inode: u64) -> StoreModel {
        if self.sync.contains_key(inode) {
            StoreModel {
                sync: self.sync.insert(inode, SyncModel { deleted_at: None, ..self.sync[inode] }),
                ..self
            }
        } else {
            self
        }
    }

    /// Gives `inode` another remote id.
    pub open spec fn set_remote_id(self, inode: u64, remote_id: Seq<char>) -> StoreModel {
        if self.inodes.contains_key(inode) {
            StoreModel {
                inodes: self.inodes.insert(inode, InodeModel { remote_id, ..self.inodes[inode] }),
                ..self
            }
        } else {
            self
        }
    }

    /// Soft-deletes the inode `child` at time `now`: its directory entry
    /// becomes a tombstone, and its sync row says that a deletion is to be
    /// pushed.
    pub open spec fn soft_delete_inode(self, child: u64, now: i64) -> StoreModel {
        let sync = self.sync.insert(
            child,
            SyncModel { dirty: true, deleted_at: Some(now), ..self.sync_or_fresh(child) },
        );
        if self.is_linked(child) {
            let k = self.link_of(child);
            StoreModel {
                dentries: self.dentries.remove(k),
                tombstones: self.tombstones.insert(
                    child,
                    TombstoneModel { parent: k.0, name: k.1, deleted_at: now },
                ),
                sync,
                ..self
            }
        } else {
            StoreModel { sync, ..self }
        }
    }

    /// Soft-deletes the inode with the remote id `remote_id`; nothing changes
    /// where no inode has it.
    pub open spec fn soft_delete(self, remote_id: Seq<char>, now: i64) -> StoreModel {
        if self.knows(remote_id) {
            self.soft_delete_inode(self.inode_of(remote_id), now)
        } else {
            self
        }
    }

    /// Restores the inode `child`: its tombstone becomes a directory entry
    /// again, at the old place, and its sync row no longer asks for a deletion.
    pub open spec fn restore_inode(self, child: u64) -> StoreModel {
        let cleared = self.clear_deleted(child);
        if self.tombstones.contains_key(child) {
            let t = self.tombstones[child];
            StoreModel {
                dentries: self.dentries.insert((t.parent, t.name), child),
                tombstones: self.tombstones.remove(child),
                ..cleared
            }
        } else {
            cleared
        }
    }

    /// Restores the inode with the remote id `remote_id`; nothing changes
    /// where no inode has it.
    pub open spec fn restore(self, remote_id: Seq<char>) -> StoreModel {
        if self.knows(remote_id) {
            self.restore_inode(self.inode_of(remote_id))
        } else {
            self
        }
    }

    /// The inode with the remote id `remote_id` is soft-deleted.
    pub open spec fn has_tombstone(self, remote_id: Seq<char>) -> bool {
        self.knows(remote_id) && self.tombstones.contains_key(self.inode_of(remote_id))
    }

    /// Removes every row that names an inode of `gone`.
    pub open spec fn without_inodes(self, gone: Set<u64>) -> StoreModel {
        StoreModel {
            inodes: self.inodes.remove_keys(gone),
            next_inode: self.next_inode,
            attrs: self.attrs.remove_keys(gone),
            dentries: Map::new(
                |k: (u64, Seq<char>)|
                    self.dentries.contains_key(k) && !gone.contains(k.0) && !gone.contains(
                        self.dentries[k],
                    ),
                |k: (u64, Seq<char>)| self.dentries[k],
            ),
            tombstones: Map::new(
                |c: u64|
                    self.tombstones.contains_key(c) && !gone.contains(c) && !gone.contains(
                        self.tombstones[c].parent,
                    ),
                |c: u64| self.tombstones[c],
            ),
            sync: self.sync.remove_keys(gone),
            chunks: Map::new(
                |k: (u64, u64)| self.chunks.contains_key(k) && !gone.contains(k.0),
                |k: (u64, u64)| self.chunks[k],
            ),
            meta: self.meta,
        }
    }

    /// Hard-deletes every inode whose tombstone is older than `grace_days`
    /// days at time `now`, with all the rows that name it.
    pub open spec fn purge(self, grace_days: i64, now: i64) -> StoreModel {
        self.without_inodes(self.expired_set(grace_days, now))
    }

    /// Records that the bytes `[start, end]` of `inode` are cached. Where a
    /// chunk with the same start exists, the longer of the two stays.
    pub open spec fn add_chunk(self, inode: u64, start: u64, end: u64) -> StoreModel {
        let kept = if self.chunks.contains_key((inode, start)) && self.chunks[(inode, start)]
            > end {
            self.chunks[(inode, start)]
        } else {
            end
        };
        StoreModel { chunks: self.chunks.insert((inode, start), kept), ..self }
    }

    /// Forgets every chunk of `inode`.
    pub open spec fn clear_chunks(self, inode: u64) -> StoreModel {
        StoreModel {
            chunks: Map::new(
                |k: (u64, u64)| self.chunks.contains_key(k) && k.0 != inode,
                |k: (u64, u64)| self.chunks[k],
            ),
            ..self
        }
    }
    // ------------------------------------------------------------------
    // Operations that the store may refuse
    // ------------------------------------------------------------------
    /// Installing the root: the store after it, and whether it was done.
    pub open spec fn try_ensure_root(self, now: i64) -> (StoreModel, Result<(), StoreFault>) {
        if self.root_installable() {
            (self.ensure_root(now), Ok(()))
        } else {
            (self, Err(StoreFault::Conflict))
        }
    }

    /// Finding or creating an inode: the store after it, and the inode or
    /// why there is none.
    pub open spec fn try_get_or_create_inode(self, remote_id: Seq<char>, now: i64) -> (
        StoreModel,
        Result<u64, StoreFault>,
    ) {
        if self.knows(remote_id) || self.next_inode <= MAX_INODE {
            (
                self.get_or_create_inode(remote_id, now).0,
                Ok(self.get_or_create_inode(remote_id, now).1),
            )
        } else {
            (self, Err(StoreFault::Io))
        }
    }

    /// Writing an attribute row: the store after it, and whether it was done.
    pub open spec fn try_upsert_attrs(
        self,
        inode: u64,
        size: i64,
        mtime: i64,
        mode: i64,
        is_dir: bool,
        mime_type: Option<Seq<char>>,
    ) -> (StoreModel, Result<(), StoreFault>) {
        if !self.inodes.contains_key(inode) {
            (self, Err(StoreFault::NotFound))
        } else if is_dir && self.has_chunks(inode) {
            (self, Err(StoreFault::Conflict))
        } else {
            (self.upsert_attrs(inode, size, mtime, mode, is_dir, mime_type), Ok(()))
        }
    }

    /// Linking a child: the store after it, and whether it was done.
    pub open spec fn try_upsert_dentry(self, parent: u64, child: u64, name: Seq<char>) -> (
        StoreModel,
        Result<(), StoreFault>,
    ) {
        if !(self.inodes.contains_key(parent) && self.inodes.contains_key(child)) {
            (self, Err(StoreFault::NotFound))
        } else if self.tombstones.contains_key(child) {
            (self, Err(StoreFault::Conflict))
        } else {
            (self.upsert_dentry(parent, child, name), Ok(()))
        }
    }

    /// Recording a cached range: the store after it, and whether it was
    /// done.
    pub open spec fn try_add_chunk(self, inode: u64, start: u64, end: u64) -> (
        StoreModel,
        Result<(), StoreFault>,
    ) {
        if !self.inodes.contains_key(inode) {
            (self, Err(StoreFault::NotFound))
        } else if start > end || (self.attrs.contains_key(inode) && self.attrs[inode].is_dir) {
            (self, Err(StoreFault::Conflict))
        } else {
            (self.add_chunk(inode, start, end), Ok(()))
        }
    }

    /// Recording a remote checksum: the store after it, and whether it was
    /// done.
    pub open spec fn try_set_remote_md5(self, inode: u64, md5: Seq<char>) -> (
        StoreModel,
        Result<(), StoreFault>,
    ) {
        if self.inodes.contains_key(inode) {
            (self.set_remote_md5(inode, md5), Ok(()))
        } else {
            (self, Err(StoreFault::NotFound))
        }
    }

    /// Giving an inode another remote id: the store after it, and whether it
    /// was done.
    pub open spec fn try_set_remote_id(self, inode: u64, remote_id: Seq<char>) -> (
        StoreModel,
        Result<(), StoreFault>,
    ) {
        if !self.inodes.contains_key(inode) {
            (self, Err(StoreFault::NotFound))
        } else if self.knows(remote_id) && self.inode_of(remote_id) != inode {
            (self, Err(StoreFault::Conflict))
        } else {
            (self.set_remote_id(inode, remote_id), Ok(()))
        }
    }
    // ------------------------------------------------------------------
    // Loading a store that was saved
    // ------------------------------------------------------------------
    /// Gives the attribute row of `inode` the creation time `ctime`, if the
    /// inode has attributes.
    pub open spec fn set_ctime(self, inode: u64, ctime: i64) -> StoreModel {
        if self.attrs.contains_key(inode) {
            StoreModel {
                attrs: self.attrs.insert(inode, AttrsModel { ctime, ..self.attrs[inode] }),
                ..self
            }
        } else {
            self
        }
    }

    /// Puts a tombstone for `child`.
    pub open spec fn put_tombstone(
        self,
        child: u64,
        parent: u64,
        name: Seq<char>,
        deleted_at: i64,
    ) -> StoreModel {
        StoreModel {
            tombstones: self.tombstones.insert(child, TombstoneModel { parent, name, deleted_at }),
            ..self
        }
    }

    /// Puts the sync row of `inode`.
    pub open spec fn put_sync(self, inode: u64, row: SyncModel) -> StoreModel {
        StoreModel { sync: self.sync.insert(inode, row), ..self }
    }

    /// Keeps the inode numbers below `next` from being handed out.
    pub open spec fn reserve_inodes(self, next: u64) -> StoreModel {
        StoreModel {
            next_inode: if next > self.next_inode && next <= MAX_INODE + 1 {
                next
            } else {
                self.next_inode
            },
            ..self
        }
    }

    /// Putting back an inode row: the store after it, and whether it was
    /// done.
    pub open spec fn try_restore_inode(self, inode: u64, remote_id: Seq<char>, created_at: i64) -> (
        StoreModel,
        Result<(), StoreFault>,
    ) {
        if 1 <= inode <= MAX_INODE && !self.inodes.contains_key(inode) && !self.knows(remote_id) {
            (self.insert_inode(inode, remote_id, created_at), Ok(()))
        } else {
            (self, Err(StoreFault::Conflict))
        }
    }

    /// Putting back a tombstone: the store after it, and whether it was
    /// done.
    pub open spec fn try_put_tombstone(
        self,
        child: u64,
        parent: u64,
        name: Seq<char>,
        deleted_at: i64,
    ) -> (StoreModel, Result<(), StoreFault>) {
        if !(self.inodes.contains_key(child) && self.inodes.contains_key(parent)) {
            (self, Err(StoreFault::NotFound))
        } else if self.is_linked(child) {
            (self, Err(StoreFault::Conflict))
        } else {
            (self.put_tombstone(child, parent, name, deleted_at), Ok(()))
        }
    }

    /// Putting back a sync row: the store after it, and whether it was done.
    pub open spec fn try_put_sync(self, inode: u64, row: SyncModel) -> (
        StoreModel,
        Result<(), StoreFault>,
    ) {
        if self.inodes.contains_key(inode) {
            (self.put_sync(inode, row), Ok(()))
        } else {
            (self, Err(StoreFault::NotFound))
        }
    }
}

/// Why the store refuses an operation.
#[derive(Debug, Clone, Copy, PartialEq, Eq, Structural)]
pub enum StoreFault {
    /// A row names an inode that has no row of its own.
    NotFound,
    /// The row would break a rule that holds between the tables.
    Conflict,
    /// The store cannot take the row: the inode numbers are used up.
    Io,
}

} // verus!
