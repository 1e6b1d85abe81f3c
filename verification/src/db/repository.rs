//! The metadata store, as tables of rows in memory.
//!
//! Each table is a vector of rows in which no primary key occurs twice. The
//! view of the store is the `StoreModel` that the rows stand for, and every
//! operation says which function of the model it performs.
use vstd::prelude::*;
use vstd::string::*;
use crate::db::model::{
    AttrsModel, InodeModel, MetaModel, StoreFault, StoreModel, SyncModel, TombstoneModel,
    MAX_INODE, ROOT_INODE,
};
use crate::table::{as_map, has_key, unique_keys};
use crate::fuse::attr::FileAttributes;
use crate::text::str_eq;

verus! {

/// Why the store refused an operation.
pub type StoreError = StoreFault;

/// The view of an optional string.
pub open spec fn opt_view(o: Option<String>) -> Option<Seq<char>> {
    match o {
        Some(s) => Some(s@),
        None => None,
    }
}

/// The view of an optional string slice.
pub open spec fn opt_str_view(o: Option<&str>) -> Option<Seq<char>> {
    match o {
        Some(s) => Some(s@),
        None => None,
    }
}

/// A copy of an optional string, equal to it.
pub fn clone_opt_exact(o: &Option<String>) -> (r: Option<String>)
    ensures
        r == *o,
{
    match o {
        Some(s) => Some(s.clone()),
        None => None,
    }
}

/// A copy of an optional string.
pub fn clone_opt(o: &Option<String>) -> (r: Option<String>)
    ensures
        opt_view(r) == opt_view(*o),
{
    match o {
        Some(s) => Some(s.clone()),
        None => None,
    }
}

/// A row of the inode table.
#[derive(Debug)]
pub struct InodeRow {
    pub inode: u64,
    pub remote_id: String,
    pub generation: i64,
    pub created_at: i64,
}

/// A row of the attribute table.
#[derive(Debug)]
pub struct AttrRow {
    pub inode: u64,
    pub size: i64,
    pub mtime: i64,
    pub ctime: i64,
    pub mode: i64,
    pub is_dir: bool,
    pub mime_type: Option<String>,
}

/// A row of the directory entry table.
#[derive(Debug)]
pub struct DentryRow {
    pub parent: u64,
    pub name: String,
    pub child: u64,
}

/// A row of the tombstone table.
#[derive(Debug)]
pub struct TombstoneRow {
    pub child: u64,
    pub parent: u64,
    pub name: String,
    pub deleted_at: i64,
}

/// A row of the sync table.
#[derive(Debug)]
pub struct SyncRow {
    pub inode: u64,
    pub dirty: bool,
    pub version: i64,
    pub remote_md5: Option<String>,
    pub deleted_at: Option<i64>,
}

/// A row of the table of cached chunks: the bytes `start ..= end` of `inode`.
#[derive(Debug)]
pub struct ChunkRow {
    pub inode: u64,
    pub start: u64,
    pub end: u64,
}

/// A row of the key/value table.
#[derive(Debug)]
pub struct MetaRow {
    pub key: String,
    pub value: String,
    pub updated_at: i64,
}

/// The primary key of a row of the inode table.
pub open spec fn inode_key() -> spec_fn(InodeRow) -> u64 {
    |r: InodeRow| r.inode
}

/// What a row of the inode table holds beside its key.
pub open spec fn inode_val() -> spec_fn(InodeRow) -> InodeModel {
    |r: InodeRow|
        InodeModel { remote_id: r.remote_id@, generation: r.generation, created_at: r.created_at }
}

/// The primary key of a row of the attribute table.
pub open spec fn attr_key() -> spec_fn(AttrRow) -> u64 {
    |r: AttrRow| r.inode
}

/// What a row of the attribute table holds beside its key.
pub open spec fn attr_val() -> spec_fn(AttrRow) -> AttrsModel {
    |r: AttrRow|
        AttrsModel {
            size: r.size,
            mtime: r.mtime,
            ctime: r.ctime,
            mode: r.mode,
            is_dir: r.is_dir,
            mime_type: opt_view(r.mime_type),
        }
}

/// The primary key of a directory entry: `(parent, name)`.
pub open spec fn dentry_key() -> spec_fn(DentryRow) -> (u64, Seq<char>) {
    |r: DentryRow| (r.parent, r.name@)
}

/// The child that a directory entry leads to.
pub open spec fn dentry_val() -> spec_fn(DentryRow) -> u64 {
    |r: DentryRow| r.child
}

/// The primary key of a tombstone: the child.
pub open spec fn tombstone_key() -> spec_fn(TombstoneRow) -> u64 {
    |r: TombstoneRow| r.child
}

/// What a tombstone holds beside its key.
pub open spec fn tombstone_val() -> spec_fn(TombstoneRow) -> TombstoneModel {
    |r: TombstoneRow| TombstoneModel { parent: r.parent, name: r.name@, deleted_at: r.deleted_at }
}

/// The primary key of a row of the sync table.
pub open spec fn sync_key() -> spec_fn(SyncRow) -> u64 {
    |r: SyncRow| r.inode
}

/// What a row of the sync table holds beside its key.
pub open spec fn sync_val() -> spec_fn(SyncRow) -> SyncModel {
    |r: SyncRow|
        SyncModel {
            dirty: r.dirty,
            version: r.version,
            remote_md5: opt_view(r.remote_md5),
            deleted_at: r.deleted_at,
        }
}

/// The primary key of a cached chunk: `(inode, start)`.
pub open spec fn chunk_key() -> spec_fn(ChunkRow) -> (u64, u64) {
    |r: ChunkRow| (r.inode, r.start)
}

/// The inclusive end of a cached chunk.
pub open spec fn chunk_val() -> spec_fn(ChunkRow) -> u64 {
    |r: ChunkRow| r.end
}

/// The primary key of a key/value pair.
pub open spec fn meta_key() -> spec_fn(MetaRow) -> Seq<char> {
    |r: MetaRow| r.key@
}

/// What a key/value pair holds beside its key.
pub open spec fn meta_val() -> spec_fn(MetaRow) -> MetaModel {
    |r: MetaRow| MetaModel { value: r.value@, updated_at: r.updated_at }
}


/// Whether `v` holds `x`.
fn contains_u64(v: &Vec<u64>, x: u64) -> (r: bool)
    ensures
        r == v@.contains(x),
{
    let mut i: usize = 0;
    while i < v.len()
        invariant
            i <= v.len(),
            forall|j: int| 0 <= j < i ==> v[j] != x,
        decreases v.len() - i,
    {
        if v[i] == x {
            return true;
        }
        i += 1;
    }
    false
}

/// Removes the inodes of `gone`.
fn drop_inode_rows(rows: &mut Vec<InodeRow>, gone: &Vec<u64>)
    requires
        unique_keys(old(rows)@, inode_key()),
    ensures
        unique_keys(final(rows)@, inode_key()),
        as_map(final(rows)@, inode_key(), inode_val()) == Map::new(
            |k: u64|
                as_map(old(rows)@, inode_key(), inode_val()).contains_key(k) && !(gone@.contains(k)),
            |k: u64| as_map(old(rows)@, inode_key(), inode_val())[k],
        ),
{
    let ghost before = as_map(rows@, inode_key(), inode_val());
    let mut i: usize = 0;
    while i < rows.len()
        invariant
            i <= rows.len(),
            before == as_map(old(rows)@, inode_key(), inode_val()),
            unique_keys(rows@, inode_key()),
            forall|k: u64| #[trigger]
                as_map(rows@, inode_key(), inode_val()).contains_key(k) ==> before.contains_key(k)
                    && as_map(rows@, inode_key(), inode_val())[k] == before[k],
            forall|k: u64|
                #[trigger] before.contains_key(k) && !as_map(
                    rows@,
                    inode_key(),
                    inode_val(),
                ).contains_key(k) ==> (gone@.contains(k)),
            forall|j: int|
                0 <= j < i ==> !(gone@.contains((#[trigger] inode_key()(rows[j])))),
        decreases rows.len() - i,
    {
        if contains_u64(gone, rows[i].inode) {
            proof {
                crate::table::lemma_row(rows@, inode_key(), inode_val(), i as int);
                crate::table::lemma_remove(rows@, inode_key(), inode_val(), i as int);
            }
            let ghost prev = rows@;
            rows.remove(i);
            proof {
                assert forall|j: int| 0 <= j < i implies rows[j] == prev[j] by {}
            }
        } else {
            i += 1;
        }
    }
    proof {
        let cur = as_map(rows@, inode_key(), inode_val());
        let want = Map::new(
            |k: u64| before.contains_key(k) && !(gone@.contains(k)),
            |k: u64| before[k],
        );
        assert forall|k: u64| cur.contains_key(k) implies want.contains_key(k) by {
            let j = crate::table::lemma_find(rows@, inode_key(), inode_val(), k);
            assert(inode_key()(rows[j]) == k);
        }
        assert(cur =~= want);
    }
}

/// Removes the attributes of the inodes of `gone`.
fn drop_attr_rows(rows: &mut Vec<AttrRow>, gone: &Vec<u64>)
    requires
        unique_keys(old(rows)@, attr_key()),
    ensures
        unique_keys(final(rows)@, attr_key()),
        as_map(final(rows)@, attr_key(), attr_val()) == Map::new(
            |k: u64|
                as_map(old(rows)@, attr_key(), attr_val()).contains_key(k) && !(gone@.contains(k)),
            |k: u64| as_map(old(rows)@, attr_key(), attr_val())[k],
        ),
{
    let ghost before = as_map(rows@, attr_key(), attr_val());
    let mut i: usize = 0;
    while i < rows.len()
        invariant
            i <= rows.len(),
            before == as_map(old(rows)@, attr_key(), attr_val()),
            unique_keys(rows@, attr_key()),
            forall|k: u64| #[trigger]
                as_map(rows@, attr_key(), attr_val()).contains_key(k) ==> before.contains_key(k)
                    && as_map(rows@, attr_key(), attr_val())[k] == before[k],
            forall|k: u64|
                #[trigger] before.contains_key(k) && !as_map(
                    rows@,
                    attr_key(),
                    attr_val(),
                ).contains_key(k) ==> (gone@.contains(k)),
            forall|j: int|
                0 <= j < i ==> !(gone@.contains((#[trigger] attr_key()(rows[j])))),
        decreases rows.len() - i,
    {
        if contains_u64(gone, rows[i].inode) {
            proof {
                crate::table::lemma_row(rows@, attr_key(), attr_val(), i as int);
                crate::table::lemma_remove(rows@, attr_key(), attr_val(), i as int);
            }
            let ghost prev = rows@;
            rows.remove(i);
            proof {
                assert forall|j: int| 0 <= j < i implies rows[j] == prev[j] by {}
            }
        } else {
            i += 1;
        }
    }
    proof {
        let cur = as_map(rows@, attr_key(), attr_val());
        let want = Map::new(
            |k: u64| before.contains_key(k) && !(gone@.contains(k)),
            |k: u64| before[k],
        );
        assert forall|k: u64| cur.contains_key(k) implies want.contains_key(k) by {
            let j = crate::table::lemma_find(rows@, attr_key(), attr_val(), k);
            assert(attr_key()(rows[j]) == k);
        }
        assert(cur =~= want);
    }
}

/// Removes the sync state of the inodes of `gone`.
fn drop_sync_rows(rows: &mut Vec<SyncRow>, gone: &Vec<u64>)
    requires
        unique_keys(old(rows)@, sync_key()),
    ensures
        unique_keys(final(rows)@, sync_key()),
        as_map(final(rows)@, sync_key(), sync_val()) == Map::new(
            |k: u64|
                as_map(old(rows)@, sync_key(), sync_val()).contains_key(k) && !(gone@.contains(k)),
            |k: u64| as_map(old(rows)@, sync_key(), sync_val())[k],
        ),
{
    let ghost before = as_map(rows@, sync_key(), sync_val());
    let mut i: usize = 0;
    while i < rows.len()
        invariant
            i <= rows.len(),
            before == as_map(old(rows)@, sync_key(), sync_val()),
            unique_keys(rows@, sync_key()),
            forall|k: u64| #[trigger]
                as_map(rows@, sync_key(), sync_val()).contains_key(k) ==> before.contains_key(k)
                    && as_map(rows@, sync_key(), sync_val())[k] == before[k],
            forall|k: u64|
                #[trigger] before.contains_key(k) && !as_map(
                    rows@,
                    sync_key(),
                    sync_val(),
                ).contains_key(k) ==> (gone@.contains(k)),
            forall|j: int|
                0 <= j < i ==> !(gone@.contains((#[trigger] sync_key()(rows[j])))),
        decreases rows.len() - i,
    {
        if contains_u64(gone, rows[i].inode) {
            proof {
                crate::table::lemma_row(rows@, sync_key(), sync_val(), i as int);
                crate::table::lemma_remove(rows@, sync_key(), sync_val(), i as int);
            }
            let ghost prev = rows@;
            rows.remove(i);
            proof {
                assert forall|j: int| 0 <= j < i implies rows[j] == prev[j] by {}
            }
        } else {
            i += 1;
        }
    }
    proof {
        let cur = as_map(rows@, sync_key(), sync_val());
        let want = Map::new(
            |k: u64| before.contains_key(k) && !(gone@.contains(k)),
            |k: u64| before[k],
        );
        assert forall|k: u64| cur.contains_key(k) implies want.contains_key(k) by {
            let j = crate::table::lemma_find(rows@, sync_key(), sync_val(), k);
            assert(sync_key()(rows[j]) == k);
        }
        assert(cur =~= want);
    }
}

/// Removes the chunks of the inodes of `gone`.
fn drop_chunk_rows(rows: &mut Vec<ChunkRow>, gone: &Vec<u64>)
    requires
        unique_keys(old(rows)@, chunk_key()),
    ensures
        unique_keys(final(rows)@, chunk_key()),
        as_map(final(rows)@, chunk_key(), chunk_val()) == Map::new(
            |k: (u64, u64)|
                as_map(old(rows)@, chunk_key(), chunk_val()).contains_key(k) && !(gone@.contains(k.0)),
            |k: (u64, u64)| as_map(old(rows)@, chunk_key(), chunk_val())[k],
        ),
{
    let ghost before = as_map(rows@, chunk_key(), chunk_val());
    let mut i: usize = 0;
    while i < rows.len()
        invariant
            i <= rows.len(),
            before == as_map(old(rows)@, chunk_key(), chunk_val()),
            unique_keys(rows@, chunk_key()),
            forall|k: (u64, u64)| #[trigger]
                as_map(rows@, chunk_key(), chunk_val()).contains_key(k) ==> before.contains_key(k)
                    && as_map(rows@, chunk_key(), chunk_val())[k] == before[k],
            forall|k: (u64, u64)|
                #[trigger] before.contains_key(k) && !as_map(
                    rows@,
                    chunk_key(),
                    chunk_val(),
                ).contains_key(k) ==> (gone@.contains(k.0)),
            forall|j: int|
                0 <= j < i ==> !(gone@.contains((#[trigger] chunk_key()(rows[j])).0)),
        decreases rows.len() - i,
    {
        if contains_u64(gone, rows[i].inode) {
            proof {
                crate::table::lemma_row(rows@, chunk_key(), chunk_val(), i as int);
                crate::table::lemma_remove(rows@, chunk_key(), chunk_val(), i as int);
            }
            let ghost prev = rows@;
            rows.remove(i);
            proof {
                assert forall|j: int| 0 <= j < i implies rows[j] == prev[j] by {}
            }
        } else {
            i += 1;
        }
    }
    proof {
        let cur = as_map(rows@, chunk_key(), chunk_val());
        let want = Map::new(
            |k: (u64, u64)| before.contains_key(k) && !(gone@.contains(k.0)),
            |k: (u64, u64)| before[k],
        );
        assert forall|k: (u64, u64)| cur.contains_key(k) implies want.contains_key(k) by {
            let j = crate::table::lemma_find(rows@, chunk_key(), chunk_val(), k);
            assert(chunk_key()(rows[j]) == k);
        }
        assert(cur =~= want);
    }
}

/// Removes the entries that lead from or to an inode of `gone`.
fn drop_dentry_rows(rows: &mut Vec<DentryRow>, gone: &Vec<u64>)
    requires
        unique_keys(old(rows)@, dentry_key()),
    ensures
        unique_keys(final(rows)@, dentry_key()),
        as_map(final(rows)@, dentry_key(), dentry_val()) == Map::new(
            |k: (u64, Seq<char>)|
                as_map(old(rows)@, dentry_key(), dentry_val()).contains_key(k) && !(gone@.contains(
                    k.0,
                ) || gone@.contains(as_map(old(rows)@, dentry_key(), dentry_val())[k])),
            |k: (u64, Seq<char>)| as_map(old(rows)@, dentry_key(), dentry_val())[k],
        ),
{
    let ghost before = as_map(rows@, dentry_key(), dentry_val());
    let mut i: usize = 0;
    while i < rows.len()
        invariant
            i <= rows.len(),
            before == as_map(old(rows)@, dentry_key(), dentry_val()),
            unique_keys(rows@, dentry_key()),
            forall|k: (u64, Seq<char>)| #[trigger]
                as_map(rows@, dentry_key(), dentry_val()).contains_key(k) ==> before.contains_key(k)
                    && as_map(rows@, dentry_key(), dentry_val())[k] == before[k],
            forall|k: (u64, Seq<char>)|
                #[trigger] before.contains_key(k) && !as_map(
                    rows@,
                    dentry_key(),
                    dentry_val(),
                ).contains_key(k) ==> (gone@.contains(k.0) || gone@.contains(before[k])),
            forall|j: int|
                0 <= j < i ==> !(gone@.contains((#[trigger] dentry_key()(rows[j])).0)
                    || gone@.contains(dentry_val()(rows[j]))),
        decreases rows.len() - i,
    {
        if contains_u64(gone, rows[i].parent) || contains_u64(gone, rows[i].child) {
            proof {
                crate::table::lemma_row(rows@, dentry_key(), dentry_val(), i as int);
                crate::table::lemma_remove(rows@, dentry_key(), dentry_val(), i as int);
            }
            let ghost prev = rows@;
            rows.remove(i);
            proof {
                assert forall|j: int| 0 <= j < i implies #[trigger] rows[j] == prev[j] by {}
            }
        } else {
            proof {
                let ghost row = rows[i as int];
                assert(dentry_key()(row) == (row.parent, row.name@));
                assert(dentry_val()(row) == row.child);
            }
            i += 1;
        }
    }
    proof {
        let cur = as_map(rows@, dentry_key(), dentry_val());
        let want = Map::new(
            |k: (u64, Seq<char>)|
                before.contains_key(k) && !(gone@.contains(k.0) || gone@.contains(before[k])),
            |k: (u64, Seq<char>)| before[k],
        );
        assert forall|k: (u64, Seq<char>)| cur.contains_key(k) implies want.contains_key(k) by {
            let j = crate::table::lemma_find(rows@, dentry_key(), dentry_val(), k);
            assert(dentry_key()(rows[j]) == k);
        }
        assert(cur =~= want);
    }
}

/// Removes the tombstones of the inodes of `gone`, and of what stood in them.
fn drop_tombstone_rows(rows: &mut Vec<TombstoneRow>, gone: &Vec<u64>)
    requires
        unique_keys(old(rows)@, tombstone_key()),
    ensures
        unique_keys(final(rows)@, tombstone_key()),
        as_map(final(rows)@, tombstone_key(), tombstone_val()) == Map::new(
            |k: u64|
                as_map(old(rows)@, tombstone_key(), tombstone_val()).contains_key(k) && !(
                gone@.contains(k) || gone@.contains(
                    as_map(old(rows)@, tombstone_key(), tombstone_val())[k].parent,
                )),
            |k: u64| as_map(old(rows)@, tombstone_key(), tombstone_val())[k],
        ),
{
    let ghost before = as_map(rows@, tombstone_key(), tombstone_val());
    let mut i: usize = 0;
    while i < rows.len()
        invariant
            i <= rows.len(),
            before == as_map(old(rows)@, tombstone_key(), tombstone_val()),
            unique_keys(rows@, tombstone_key()),
            forall|k: u64| #[trigger]
                as_map(rows@, tombstone_key(), tombstone_val()).contains_key(k) ==> before.contains_key(k)
                    && as_map(rows@, tombstone_key(), tombstone_val())[k] == before[k],
            forall|k: u64|
                #[trigger] before.contains_key(k) && !as_map(
                    rows@,
                    tombstone_key(),
                    tombstone_val(),
                ).contains_key(k) ==> (gone@.contains(k) || gone@.contains(before[k].parent)),
            forall|j: int|
                0 <= j < i ==> !gone@.contains((#[trigger] rows[j]).child) && !gone@.contains(
                    rows[j].parent,
                ),
        decreases rows.len() - i,
    {
        if contains_u64(gone, rows[i].child) || contains_u64(gone, rows[i].parent) {
            proof {
                crate::table::lemma_row(rows@, tombstone_key(), tombstone_val(), i as int);
                crate::table::lemma_remove(rows@, tombstone_key(), tombstone_val(), i as int);
            }
            let ghost prev = rows@;
            rows.remove(i);
            proof {
                assert forall|j: int| 0 <= j < i implies #[trigger] rows[j] == prev[j] by {}
            }
        } else {
            proof {
                let ghost row = rows[i as int];
                assert(tombstone_key()(row) == row.child);
                assert(tombstone_val()(row).parent == row.parent);
            }
            i += 1;
        }
    }
    proof {
        let cur = as_map(rows@, tombstone_key(), tombstone_val());
        let want = Map::new(
            |k: u64| before.contains_key(k) && !(gone@.contains(k) || gone@.contains(before[k].parent)),
            |k: u64| before[k],
        );
        assert forall|k: u64| cur.contains_key(k) implies want.contains_key(k) by {
            let j = crate::table::lemma_find(rows@, tombstone_key(), tombstone_val(), k);
            assert(rows[j].child == k);
            assert(before[k].parent == rows[j].parent);
        }
        assert(cur =~= want);
    }
}

/// The metadata store.
pub struct MetadataRepository {
    inodes: Vec<InodeRow>,
    next_inode: u64,
    attrs: Vec<AttrRow>,
    dentries: Vec<DentryRow>,
    tombstones: Vec<TombstoneRow>,
    sync: Vec<SyncRow>,
    chunks: Vec<ChunkRow>,
    meta: Vec<MetaRow>,
}

impl View for MetadataRepository {
    type V = StoreModel;

    /// The tables that the rows stand for.
    closed spec fn view(&self) -> StoreModel {
        StoreModel {
            inodes: as_map(self.inodes@, inode_key(), inode_val()),
            next_inode: self.next_inode,
            attrs: as_map(self.attrs@, attr_key(), attr_val()),
            dentries: as_map(self.dentries@, dentry_key(), dentry_val()),
            tombstones: as_map(self.tombstones@, tombstone_key(), tombstone_val()),
            sync: as_map(self.sync@, sync_key(), sync_val()),
            chunks: as_map(self.chunks@, chunk_key(), chunk_val()),
            meta: as_map(self.meta@, meta_key(), meta_val()),
        }
    }
}

impl MetadataRepository {
    /// No table holds a primary key twice.
    pub closed spec fn rep(&self) -> bool {
        &&& unique_keys(self.inodes@, inode_key())
        &&& unique_keys(self.attrs@, attr_key())
        &&& unique_keys(self.dentries@, dentry_key())
        &&& unique_keys(self.tombstones@, tombstone_key())
        &&& unique_keys(self.sync@, sync_key())
        &&& unique_keys(self.chunks@, chunk_key())
        &&& unique_keys(self.meta@, meta_key())
    }

    /// The store is sound: its rows are tables, and the tables keep the rules.
    pub closed spec fn wf(&self) -> bool {
        self.rep() && self@.wf()
    }

    /// A sound store keeps the rules of the model.
    pub proof fn lemma_wf(&self)
        requires
            self.wf(),
        ensures
            self@.wf(),
    {
    }

    /// An empty store.
    pub fn new() -> (db: Self)
        ensures
            db.wf(),
            db@ == StoreModel::empty(),
    {
        let db = MetadataRepository {
            inodes: Vec::new(),
            next_inode: 2,
            attrs: Vec::new(),
            dentries: Vec::new(),
            tombstones: Vec::new(),
            sync: Vec::new(),
            chunks: Vec::new(),
            meta: Vec::new(),
        };
        proof {
            crate::table::lemma_empty(inode_key(), inode_val());
            crate::table::lemma_empty(attr_key(), attr_val());
            crate::table::lemma_empty(dentry_key(), dentry_val());
            crate::table::lemma_empty(tombstone_key(), tombstone_val());
            crate::table::lemma_empty(sync_key(), sync_val());
            crate::table::lemma_empty(chunk_key(), chunk_val());
            crate::table::lemma_empty(meta_key(), meta_val());
            assert(db.inodes@ =~= Seq::<InodeRow>::empty());
            assert(db.attrs@ =~= Seq::<AttrRow>::empty());
            assert(db.dentries@ =~= Seq::<DentryRow>::empty());
            assert(db.tombstones@ =~= Seq::<TombstoneRow>::empty());
            assert(db.sync@ =~= Seq::<SyncRow>::empty());
            assert(db.chunks@ =~= Seq::<ChunkRow>::empty());
            assert(db.meta@ =~= Seq::<MetaRow>::empty());
            assert(db@ =~= StoreModel::empty());
        }
        db
    }

    // ------------------------------------------------------------------
    // Finding rows
    // ------------------------------------------------------------------
    /// The index of the row of `inode`.
    fn find_inode_row(&self, inode: u64) -> (r: Option<usize>)
        requires
            self.rep(),
        ensures
            r is Some ==> r->0 < self.inodes.len() && self.inodes[r->0 as int].inode == inode
                && self@.inodes.contains_key(inode) && self@.inodes[inode] == inode_val()(
                self.inodes[r->0 as int],
            ),
            r is None ==> !self@.inodes.contains_key(inode),
    {
        let mut i: usize = 0;
        while i < self.inodes.len()
            invariant
                self.rep(),
                i <= self.inodes.len(),
                forall|j: int| 0 <= j < i ==> #[trigger] inode_key()(self.inodes[j]) != inode,
            decreases self.inodes.len() - i,
        {
            if self.inodes[i].inode == inode {
                proof {
                    crate::table::lemma_row(self.inodes@, inode_key(), inode_val(), i as int);
                }
                return Some(i);
            }
            i += 1;
        }
        None
    }

    /// The index of the inode row with the remote id `remote_id`.
    fn find_remote_row(&self, remote_id: &str) -> (r: Option<usize>)
        requires
            self.wf(),
        ensures
            r is Some ==> r->0 < self.inodes.len() && self.inodes[r->0 as int].remote_id@
                == remote_id@ && self@.knows(remote_id@) && self@.inode_of(remote_id@)
                == self.inodes[r->0 as int].inode && self@.inodes.contains_key(
                self.inodes[r->0 as int].inode,
            ) && self@.inodes[self.inodes[r->0 as int].inode] == inode_val()(
                self.inodes[r->0 as int],
            ),
            r is None ==> !self@.knows(remote_id@),
    {
        let mut i: usize = 0;
        while i < self.inodes.len()
            invariant
                self.wf(),
                i <= self.inodes.len(),
                forall|j: int| 0 <= j < i ==> (#[trigger] self.inodes[j]).remote_id@ != remote_id@,
            decreases self.inodes.len() - i,
        {
            if str_eq(self.inodes[i].remote_id.as_str(), remote_id) {
                proof {
                    crate::table::lemma_row(self.inodes@, inode_key(), inode_val(), i as int);
                    crate::db::rules::lemma_inode_of(self@, self.inodes[i as int].inode);
                }
                return Some(i);
            }
            i += 1;
        }
        proof {
            if self@.knows(remote_id@) {
                let ino = self@.inode_of(remote_id@);
                let j = crate::table::lemma_find(self.inodes@, inode_key(), inode_val(), ino);
                assert(self.inodes[j].remote_id@ == remote_id@);
            }
        }
        None
    }

    /// The index of the attribute row of `inode`.
    fn find_attr_row(&self, inode: u64) -> (r: Option<usize>)
        requires
            self.rep(),
        ensures
            r is Some ==> r->0 < self.attrs.len() && attr_key()(self.attrs[r->0 as int])
                == inode && self@.attrs.contains_key(inode) && self@.attrs[inode]
                == attr_val()(self.attrs[r->0 as int]),
            r is None ==> !self@.attrs.contains_key(inode),
    {
        let mut i: usize = 0;
        while i < self.attrs.len()
            invariant
                self.rep(),
                i <= self.attrs.len(),
                forall|j: int| 0 <= j < i ==> #[trigger] attr_key()(self.attrs[j]) != inode,
            decreases self.attrs.len() - i,
        {
            if self.attrs[i].inode == inode {
                proof {
                    crate::table::lemma_row(self.attrs@, attr_key(), attr_val(), i as int);
                }
                return Some(i);
            }
            i += 1;
        }
        None
    }

    /// The index of the entry under `(parent, name)`.
    fn find_dentry_row(&self, parent: u64, name: &str) -> (r: Option<usize>)
        requires
            self.rep(),
        ensures
            r is Some ==> r->0 < self.dentries.len() && dentry_key()(self.dentries[r->0 as int])
                == (parent, name@) && self@.dentries.contains_key((parent, name@))
                && self@.dentries[(parent, name@)]
                == dentry_val()(self.dentries[r->0 as int]),
            r is None ==> !self@.dentries.contains_key((parent, name@)),
    {
        let mut i: usize = 0;
        while i < self.dentries.len()
            invariant
                self.rep(),
                i <= self.dentries.len(),
                forall|j: int| 0 <= j < i ==> #[trigger] dentry_key()(self.dentries[j]) != (parent, name@),
            decreases self.dentries.len() - i,
        {
            if self.dentries[i].parent == parent && str_eq(self.dentries[i].name.as_str(), name) {
                proof {
                    crate::table::lemma_row(self.dentries@, dentry_key(), dentry_val(), i as int);
                }
                return Some(i);
            }
            i += 1;
        }
        None
    }

    /// The index of the tombstone of `child`.
    fn find_tombstone_row(&self, child: u64) -> (r: Option<usize>)
        requires
            self.rep(),
        ensures
            r is Some ==> r->0 < self.tombstones.len() && tombstone_key()(self.tombstones[r->0 as int])
                == child && self@.tombstones.contains_key(child) && self@.tombstones[child]
                == tombstone_val()(self.tombstones[r->0 as int]),
            r is None ==> !self@.tombstones.contains_key(child),
    {
        let mut i: usize = 0;
        while i < self.tombstones.len()
            invariant
                self.rep(),
                i <= self.tombstones.len(),
                forall|j: int| 0 <= j < i ==> #[trigger] tombstone_key()(self.tombstones[j]) != child,
            decreases self.tombstones.len() - i,
        {
            if self.tombstones[i].child == child {
                proof {
                    crate::table::lemma_row(self.tombstones@, tombstone_key(), tombstone_val(), i as int);
                }
                return Some(i);
            }
            i += 1;
        }
        None
    }

    /// The index of the sync row of `inode`.
    fn find_sync_row(&self, inode: u64) -> (r: Option<usize>)
        requires
            self.rep(),
        ensures
            r is Some ==> r->0 < self.sync.len() && sync_key()(self.sync[r->0 as int])
                == inode && self@.sync.contains_key(inode) && self@.sync[inode]
                == sync_val()(self.sync[r->0 as int]),
            r is None ==> !self@.sync.contains_key(inode),
    {
        let mut i: usize = 0;
        while i < self.sync.len()
            invariant
                self.rep(),
                i <= self.sync.len(),
                forall|j: int| 0 <= j < i ==> #[trigger] sync_key()(self.sync[j]) != inode,
            decreases self.sync.len() - i,
        {
            if self.sync[i].inode == inode {
                proof {
                    crate::table::lemma_row(self.sync@, sync_key(), sync_val(), i as int);
                }
                return Some(i);
            }
            i += 1;
        }
        None
    }

    /// The index of the chunk of `inode` that starts at `start`.
    fn find_chunk_row(&self, inode: u64, start: u64) -> (r: Option<usize>)
        requires
            self.rep(),
        ensures
            r is Some ==> r->0 < self.chunks.len() && chunk_key()(self.chunks[r->0 as int])
                == (inode, start) && self@.chunks.contains_key((inode, start)) && self@.chunks[(inode, start)]
                == chunk_val()(self.chunks[r->0 as int]),
            r is None ==> !self@.chunks.contains_key((inode, start)),
    {
        let mut i: usize = 0;
        while i < self.chunks.len()
            invariant
                self.rep(),
                i <= self.chunks.len(),
                forall|j: int| 0 <= j < i ==> #[trigger] chunk_key()(self.chunks[j]) != (inode, start),
            decreases self.chunks.len() - i,
        {
            if self.chunks[i].inode == inode && self.chunks[i].start == start {
                proof {
                    crate::table::lemma_row(self.chunks@, chunk_key(), chunk_val(), i as int);
                }
                return Some(i);
            }
            i += 1;
        }
        None
    }

    /// The index of the pair under `key`.
    fn find_meta_row(&self, key: &str) -> (r: Option<usize>)
        requires
            self.rep(),
        ensures
            r is Some ==> r->0 < self.meta.len() && meta_key()(self.meta[r->0 as int])
                == key@ && self@.meta.contains_key(key@) && self@.meta[key@]
                == meta_val()(self.meta[r->0 as int]),
            r is None ==> !self@.meta.contains_key(key@),
    {
        let mut i: usize = 0;
        while i < self.meta.len()
            invariant
                self.rep(),
                i <= self.meta.len(),
                forall|j: int| 0 <= j < i ==> #[trigger] meta_key()(self.meta[j]) != key@,
            decreases self.meta.len() - i,
        {
            if str_eq(self.meta[i].key.as_str(), key) {
                proof {
                    crate::table::lemma_row(self.meta@, meta_key(), meta_val(), i as int);
                }
                return Some(i);
            }
            i += 1;
        }
        None
    }

    /// The index of the entry that leads to `child`.
    fn find_link_row(&self, child: u64) -> (r: Option<usize>)
        requires
            self.wf(),
        ensures
            r is Some ==> r->0 < self.dentries.len() && self.dentries[r->0 as int].child == child
                && self@.is_linked(child) && self@.link_of(child) == dentry_key()(
                self.dentries[r->0 as int],
            ) && self@.dentries.contains_key(self@.link_of(child)),
            r is None ==> !self@.is_linked(child),
    {
        let mut i: usize = 0;
        while i < self.dentries.len()
            invariant
                self.wf(),
                i <= self.dentries.len(),
                forall|j: int| 0 <= j < i ==> (#[trigger] self.dentries[j]).child != child,
            decreases self.dentries.len() - i,
        {
            if self.dentries[i].child == child {
                proof {
                    crate::table::lemma_row(self.dentries@, dentry_key(), dentry_val(), i as int);
                    crate::db::rules::lemma_link_of(self@, dentry_key()(self.dentries[i as int]));
                }
                return Some(i);
            }
            i += 1;
        }
        proof {
            if self@.is_linked(child) {
                let k = self@.link_of(child);
                let j = crate::table::lemma_find(self.dentries@, dentry_key(), dentry_val(), k);
                assert(self.dentries[j].child == child);
            }
        }
        None
    }

    /// Whether `inode` has a cached chunk.
    fn inode_has_chunks(&self, inode: u64) -> (r: bool)
        requires
            self.rep(),
        ensures
            r == self@.has_chunks(inode),
    {
        let mut i: usize = 0;
        while i < self.chunks.len()
            invariant
                self.rep(),
                i <= self.chunks.len(),
                forall|j: int| 0 <= j < i ==> (#[trigger] self.chunks[j]).inode != inode,
            decreases self.chunks.len() - i,
        {
            if self.chunks[i].inode == inode {
                proof {
                    crate::table::lemma_row(self.chunks@, chunk_key(), chunk_val(), i as int);
                    assert(self@.chunks.contains_key((inode, self.chunks[i as int].start)));
                }
                return true;
            }
            i += 1;
        }
        proof {
            if self@.has_chunks(inode) {
                let start = choose|start: u64| #[trigger] self@.chunks.contains_key((inode, start));
                let j = crate::table::lemma_find(
                    self.chunks@,
                    chunk_key(),
                    chunk_val(),
                    (inode, start),
                );
                assert(self.chunks[j].inode == inode);
            }
        }
        false
    }

    /// Marks `inode` as changed locally and not yet pushed.
    pub fn mark_dirty(&mut self, inode: u64) -> (r: Result<(), StoreError>)
        requires
            old(self).wf(),
        ensures
            final(self).wf(),
            old(self)@.inodes.contains_key(inode) ==> r is Ok && final(self)@ == old(self)@.mark_dirty(
                inode,
            ),
            !old(self)@.inodes.contains_key(inode) ==> r == Err::<(), StoreError>(
                StoreError::NotFound,
            ) && final(self)@ == old(self)@,
    {
        if self.find_inode_row(inode).is_none() {
            return Err(StoreError::NotFound);
        }
        match self.find_sync_row(inode) {
            Some(i) => {
                self.sync[i].dirty = true;
                proof {
                    crate::table::lemma_update(
                        old(self).sync@,
                        sync_key(),
                        sync_val(),
                        i as int,
                        self.sync[i as int],
                    );
                    assert(self.sync@ =~= old(self).sync@.update(i as int, self.sync[i as int]));
                }
            },
            None => {
                let row = SyncRow {
                    inode,
                    dirty: true,
                    version: 0,
                    remote_md5: None,
                    deleted_at: None,
                };
                proof {
                    crate::table::lemma_push(old(self).sync@, sync_key(), sync_val(), row);
                }
                self.sync.push(row);
            },
        }
        proof {
            crate::db::rules::lemma_sync_wf(old(self)@, inode, Seq::empty());
            assert(self@ =~= old(self)@.mark_dirty(inode));
        }
        Ok(())
    }
    // ------------------------------------------------------------------
    // Inodes
    // ------------------------------------------------------------------
    /// Installs inode 1, the root, with the attributes of a directory, unless
    /// they are there already. Nothing is installed, and `Conflict` returned,
    /// where inode 1 or the root's remote id belongs to another inode, or
    /// inode 1 has cached chunks and no attributes.
    pub fn ensure_root(&mut self, now: i64) -> (r: Result<(), StoreError>)
        requires
            old(self).wf(),
        ensures
            final(self).wf(),
            old(self)@.root_installable() ==> r is Ok && final(self)@ == old(self)@.ensure_root(now),
            !old(self)@.root_installable() ==> r == Err::<(), StoreError>(StoreError::Conflict)
                && final(self)@ == old(self)@,
            (final(self)@, r) == old(self)@.try_ensure_root(now),
    {
        let by_inode = self.find_inode_row(ROOT_INODE);
        let by_id = self.find_remote_row("root");
        match by_inode {
            Some(i) => {
                if !str_eq(self.inodes[i].remote_id.as_str(), "root") {
                    return Err(StoreError::Conflict);
                }
            },
            None => {},
        }
        match by_id {
            Some(j) => {
                if self.inodes[j].inode != ROOT_INODE {
                    return Err(StoreError::Conflict);
                }
            },
            None => {},
        }
        let has_attrs = self.find_attr_row(ROOT_INODE).is_some();
        if !has_attrs && self.inode_has_chunks(ROOT_INODE) {
            return Err(StoreError::Conflict);
        }
        assert(old(self)@.root_installable());
        if by_inode.is_none() {
            let row = InodeRow {
                inode: ROOT_INODE,
                remote_id: String::from_str("root"),
                generation: 0,
                created_at: now,
            };
            proof {
                crate::table::lemma_push(self.inodes@, inode_key(), inode_val(), row);
            }
            self.inodes.push(row);
        }
        if !has_attrs {
            let row = AttrRow {
                inode: ROOT_INODE,
                size: 4096,
                mtime: now,
                ctime: now,
                mode: 0o755,
                is_dir: true,
                mime_type: Some(String::from_str("application/vnd.google-apps.folder")),
            };
            proof {
                crate::table::lemma_push(self.attrs@, attr_key(), attr_val(), row);
            }
            self.attrs.push(row);
        }
        proof {
            crate::db::rules::lemma_ensure_root_wf(old(self)@, now);
            assert(self@ =~= old(self)@.ensure_root(now));
        }
        Ok(())
    }

    /// The inode with the remote id `gdrive_id`, if there is one.
    pub fn get_inode_by_gdrive_id(&self, gdrive_id: &str) -> (r: Option<u64>)
        requires
            self.wf(),
        ensures
            r == self@.find_inode(gdrive_id@),
    {
        match self.find_remote_row(gdrive_id) {
            Some(i) => Some(self.inodes[i].inode),
            None => None,
        }
    }

    /// The remote id of `inode`, if the inode exists.
    pub fn get_gdrive_id(&self, inode: u64) -> (r: Option<String>)
        requires
            self.wf(),
        ensures
            r is Some <==> self@.inodes.contains_key(inode),
            r is Some ==> r->0@ == self@.inodes[inode].remote_id,
    {
        match self.find_inode_row(inode) {
            Some(i) => Some(self.inodes[i].remote_id.clone()),
            None => None,
        }
    }

    /// The inode for the remote id `gdrive_id`: the one that has it, or
    /// else a new one, created at `now` under the next number. Fails with
    /// `Io`, and changes nothing, where a new inode is needed and the numbers
    /// are used up.
    pub fn get_or_create_inode(&mut self, gdrive_id: &str, now: i64) -> (r: Result<
        u64,
        StoreError,
    >)
        requires
            old(self).wf(),
        ensures
            final(self).wf(),
            (old(self)@.knows(gdrive_id@) || old(self)@.next_inode <= MAX_INODE) ==> r == Ok::<
                u64,
                StoreError,
            >(old(self)@.get_or_create_inode(gdrive_id@, now).1) && final(self)@
                == old(self)@.get_or_create_inode(gdrive_id@, now).0,
            !(old(self)@.knows(gdrive_id@) || old(self)@.next_inode <= MAX_INODE) ==> r == Err::<
                u64,
                StoreError,
            >(StoreError::Io) && final(self)@ == old(self)@,
            (final(self)@, r) == old(self)@.try_get_or_create_inode(gdrive_id@, now),
            r is Ok ==> final(self)@.inodes.contains_key(r->Ok_0) && final(self)@.find_inode(
                gdrive_id@,
            ) == Some(r->Ok_0),
    {
        match self.find_remote_row(gdrive_id) {
            Some(i) => {
                return Ok(self.inodes[i].inode);
            },
            None => {},
        }
        if self.next_inode > MAX_INODE {
            return Err(StoreError::Io);
        }
        let inode = self.next_inode;
        let row = InodeRow {
            inode,
            remote_id: String::from_str(gdrive_id),
            generation: 0,
            created_at: now,
        };
        proof {
            assert(!self@.inodes.contains_key(inode));
            crate::table::lemma_absent(self.inodes@, inode_key(), inode_val(), inode);
            crate::table::lemma_push(self.inodes@, inode_key(), inode_val(), row);
        }
        self.inodes.push(row);
        self.next_inode = inode + 1;
        proof {
            crate::db::rules::lemma_get_or_create_wf(old(self)@, gdrive_id@, now);
            assert(self@ =~= old(self)@.get_or_create_inode(gdrive_id@, now).0);
        }
        Ok(inode)
    }

    /// Gives `inode` the remote id `gdrive_id`. Fails with `NotFound` where
    /// the inode does not exist, with `Conflict` where another inode has that
    /// id; nothing changes then.
    pub fn set_remote_id(&mut self, inode: u64, gdrive_id: &str) -> (r: Result<(), StoreError>)
        requires
            old(self).wf(),
        ensures
            final(self).wf(),
            r is Ok ==> final(self)@ == old(self)@.set_remote_id(inode, gdrive_id@),
            r is Err ==> final(self)@ == old(self)@,
            !old(self)@.inodes.contains_key(inode) <==> r == Err::<(), StoreError>(
                StoreError::NotFound,
            ),
            old(self)@.inodes.contains_key(inode) && old(self)@.knows(gdrive_id@)
                && old(self)@.inode_of(gdrive_id@) != inode <==> r == Err::<(), StoreError>(
                StoreError::Conflict,
            ),
            r is Ok <==> old(self)@.inodes.contains_key(inode) && !(old(self)@.knows(gdrive_id@)
                && old(self)@.inode_of(gdrive_id@) != inode),
            (final(self)@, r) == old(self)@.try_set_remote_id(inode, gdrive_id@),
    {
        let at = match self.find_inode_row(inode) {
            Some(i) => i,
            None => {
                return Err(StoreError::NotFound);
            },
        };
        match self.find_remote_row(gdrive_id) {
            Some(j) => {
                if self.inodes[j].inode != inode {
                    return Err(StoreError::Conflict);
                }
            },
            None => {},
        }
        self.inodes[at].remote_id = String::from_str(gdrive_id);
        proof {
            crate::table::lemma_update(
                old(self).inodes@,
                inode_key(),
                inode_val(),
                at as int,
                self.inodes[at as int],
            );
            assert(self.inodes@ =~= old(self).inodes@.update(at as int, self.inodes[at as int]));
            crate::db::rules::lemma_set_remote_id_wf(old(self)@, inode, gdrive_id@);
            assert(self@ =~= old(self)@.set_remote_id(inode, gdrive_id@));
        }
        Ok(())
    }

    /// Whether the store holds no inode but, at most, the root.
    pub fn is_empty(&self) -> (r: bool)
        requires
            self.wf(),
        ensures
            r == (self@.inodes.dom().len() <= 1),
            self@.inodes.dom().finite(),
    {
        proof {
            crate::table::lemma_len(self.inodes@, inode_key(), inode_val());
        }
        self.inodes.len() <= 1
    }

    // ------------------------------------------------------------------
    // Attributes
    // ------------------------------------------------------------------
    /// The attributes of `inode`. The root has those of a fresh root, changed
    /// at `now`, while the store holds none for it; any other inode without
    /// attributes gives `NotFound`.
    pub fn get_attrs(&self, inode: u64, now: i64) -> (r: Result<FileAttributes, StoreError>)
        requires
            self.wf(),
        ensures
            match r {
                Ok(a) => self@.attrs_or_root(inode, now) == Some(a.model()) && a.inode == inode,
                Err(e) => e == StoreError::NotFound && self@.attrs_or_root(inode, now) is None,
            },
    {
        match self.find_attr_row(inode) {
            Some(i) => {
                proof {
                    self.lemma_wf();
                    assert(self@.inodes.contains_key(inode));
                }
                let row = &self.attrs[i];
                Ok(
                    FileAttributes {
                        inode: inode as i64,
                        size: row.size,
                        mtime: row.mtime,
                        ctime: row.ctime,
                        mode: row.mode,
                        is_dir: row.is_dir,
                        mime_type: clone_opt(&row.mime_type),
                    },
                )
            },
            None => {
                if inode == ROOT_INODE {
                    Ok(FileAttributes::root(now))
                } else {
                    Err(StoreError::NotFound)
                }
            },
        }
    }

    /// Whether `inode` has attributes.
    pub fn has_attrs(&self, inode: u64) -> (r: bool)
        requires
            self.wf(),
        ensures
            r == self@.attrs.contains_key(inode),
    {
        self.find_attr_row(inode).is_some()
    }

    /// Writes the whole attribute row of `inode`; a new row takes `mtime` as
    /// its `ctime`. Fails with `NotFound` where the inode does not exist, and
    /// with `Conflict` where a directory would be left with cached chunks;
    /// nothing changes then.
    pub fn upsert_file_metadata(
        &mut self,
        inode: u64,
        size: i64,
        mtime: i64,
        mode: u32,
        is_dir: bool,
        mime_type: Option<&str>,
    ) -> (r: Result<(), StoreError>)
        requires
            old(self).wf(),
        ensures
            final(self).wf(),
            r is Ok ==> final(self)@ == old(self)@.upsert_attrs(
                inode,
                size,
                mtime,
                mode as i64,
                is_dir,
                opt_str_view(mime_type),
            ),
            r is Err ==> final(self)@ == old(self)@,
            !old(self)@.inodes.contains_key(inode) <==> r == Err::<(), StoreError>(
                StoreError::NotFound,
            ),
            old(self)@.inodes.contains_key(inode) && is_dir && old(self)@.has_chunks(inode) <==> r
                == Err::<(), StoreError>(StoreError::Conflict),
            r is Ok <==> old(self)@.inodes.contains_key(inode) && !(is_dir && old(self)@.has_chunks(
                inode,
            )),
            (final(self)@, r) == old(self)@.try_upsert_attrs(
                inode,
                size,
                mtime,
                mode as i64,
                is_dir,
                opt_str_view(mime_type),
            ),
    {
        if self.find_inode_row(inode).is_none() {
            return Err(StoreError::NotFound);
        }
        if is_dir && self.inode_has_chunks(inode) {
            return Err(StoreError::Conflict);
        }
        let mime: Option<String> = match mime_type {
            Some(m) => Some(String::from_str(m)),
            None => None,
        };
        match self.find_attr_row(inode) {
            Some(i) => {
                let ctime = self.attrs[i].ctime;
                let row = AttrRow { inode, size, mtime, ctime, mode: mode as i64, is_dir, mime_type: mime };
                proof {
                    crate::table::lemma_update(self.attrs@, attr_key(), attr_val(), i as int, row);
                }
                self.attrs.set(i, row);
            },
            None => {
                let row = AttrRow {
                    inode,
                    size,
                    mtime,
                    ctime: mtime,
                    mode: mode as i64,
                    is_dir,
                    mime_type: mime,
                };
                proof {
                    crate::table::lemma_push(self.attrs@, attr_key(), attr_val(), row);
                }
                self.attrs.push(row);
            },
        }
        proof {
            crate::db::rules::lemma_upsert_attrs_wf(
                old(self)@,
                inode,
                size,
                mtime,
                mode as i64,
                is_dir,
                opt_str_view(mime_type),
            );
            assert(self@ =~= old(self)@.upsert_attrs(
                inode,
                size,
                mtime,
                mode as i64,
                is_dir,
                opt_str_view(mime_type),
            ));
        }
        Ok(())
    }

    /// Changes the size, the modification time and the mode of `inode`, each
    /// where one is given. An inode without attributes is left as it is.
    pub fn patch_attrs(
        &mut self,
        inode: u64,
        size: Option<i64>,
        mtime: Option<i64>,
        mode: Option<i64>,
    )
        requires
            old(self).wf(),
        ensures
            final(self).wf(),
            final(self)@ == old(self)@.patch_attrs(inode, size, mtime, mode),
    {
        match self.find_attr_row(inode) {
            Some(i) => {
                match size {
                    Some(v) => {
                        self.attrs[i].size = v;
                    },
                    None => {},
                }
                match mtime {
                    Some(v) => {
                        self.attrs[i].mtime = v;
                    },
                    None => {},
                }
                match mode {
                    Some(v) => {
                        self.attrs[i].mode = v;
                    },
                    None => {},
                }
                proof {
                    crate::table::lemma_update(
                        old(self).attrs@,
                        attr_key(),
                        attr_val(),
                        i as int,
                        self.attrs[i as int],
                    );
                    assert(self.attrs@ =~= old(self).attrs@.update(i as int, self.attrs[i as int]));
                }
            },
            None => {},
        }
        proof {
            crate::db::rules::lemma_patch_attrs_wf(old(self)@, inode, size, mtime, mode);
            assert(self@ =~= old(self)@.patch_attrs(inode, size, mtime, mode));
        }
    }
    // ------------------------------------------------------------------
    // Directory entries
    // ------------------------------------------------------------------
    /// The child that stands under `(parent, name)`, if any.
    pub fn lookup(&self, parent: u64, name: &str) -> (r: Option<u64>)
        requires
            self.wf(),
        ensures
            r == self@.lookup(parent, name@),
    {
        match self.find_dentry_row(parent, name) {
            Some(i) => Some(self.dentries[i].child),
            None => None,
        }
    }

    /// The name under which `inode` stands, if it is visible.
    pub fn get_file_name(&self, inode: u64) -> (r: Option<String>)
        requires
            self.wf(),
        ensures
            r is Some <==> self@.is_linked(inode),
            r is Some ==> r->0@ == self@.link_of(inode).1,
    {
        match self.find_link_row(inode) {
            Some(i) => Some(self.dentries[i].name.clone()),
            None => None,
        }
    }

    /// The directory in which `inode` stands, if it is visible.
    pub fn get_parent(&self, inode: u64) -> (r: Option<u64>)
        requires
            self.wf(),
        ensures
            r is Some <==> self@.is_linked(inode),
            r is Some ==> r->0 == self@.link_of(inode).0,
    {
        match self.find_link_row(inode) {
            Some(i) => Some(self.dentries[i].parent),
            None => None,
        }
    }

    /// Puts `child` under `(parent, name)`: whatever stood there is replaced,
    /// and `child` leaves the place where it stood before. Fails with
    /// `NotFound` where `parent` or `child` does not exist, with `Conflict`
    /// where `child` is soft-deleted; nothing changes then.
    pub fn upsert_dentry(&mut self, parent: u64, child: u64, name: &str) -> (r: Result<
        (),
        StoreError,
    >)
        requires
            old(self).wf(),
        ensures
            final(self).wf(),
            r is Ok ==> final(self)@ == old(self)@.upsert_dentry(parent, child, name@),
            r is Err ==> final(self)@ == old(self)@,
            !(old(self)@.inodes.contains_key(parent) && old(self)@.inodes.contains_key(child))
                <==> r == Err::<(), StoreError>(StoreError::NotFound),
            old(self)@.inodes.contains_key(parent) && old(self)@.inodes.contains_key(child)
                && old(self)@.tombstones.contains_key(child) <==> r == Err::<(), StoreError>(
                StoreError::Conflict,
            ),
            r is Ok <==> old(self)@.inodes.contains_key(parent) && old(self)@.inodes.contains_key(
                child,
            ) && !old(self)@.tombstones.contains_key(child),
            (final(self)@, r) == old(self)@.try_upsert_dentry(parent, child, name@),
    {
        if self.find_inode_row(parent).is_none() || self.find_inode_row(child).is_none() {
            return Err(StoreError::NotFound);
        }
        if self.find_tombstone_row(child).is_some() {
            return Err(StoreError::Conflict);
        }
        match self.find_link_row(child) {
            Some(i) => {
                proof {
                    crate::table::lemma_remove(self.dentries@, dentry_key(), dentry_val(), i as int);
                }
                self.dentries.remove(i);
            },
            None => {},
        }
        assert(as_map(self.dentries@, dentry_key(), dentry_val()) == old(
            self,
        )@.dentries_without(child));
        let ghost mid = self.dentries@;
        match self.find_dentry_row(parent, name) {
            Some(j) => {
                self.dentries[j].child = child;
                proof {
                    crate::table::lemma_update(
                        mid,
                        dentry_key(),
                        dentry_val(),
                        j as int,
                        self.dentries[j as int],
                    );
                    assert(self.dentries@ =~= mid.update(j as int, self.dentries[j as int]));
                }
            },
            None => {
                let row = DentryRow { parent, name: String::from_str(name), child };
                proof {
                    crate::table::lemma_absent(mid, dentry_key(), dentry_val(), (parent, name@));
                    crate::table::lemma_push(mid, dentry_key(), dentry_val(), row);
                }
                self.dentries.push(row);
            },
        }
        proof {
            crate::db::rules::lemma_upsert_dentry_wf(old(self)@, parent, child, name@);
            assert(self@ =~= old(self)@.upsert_dentry(parent, child, name@));
        }
        Ok(())
    }

    /// Removes the entry under `(parent, name)`, if there is one.
    pub fn remove_dentry(&mut self, parent: u64, name: &str)
        requires
            old(self).wf(),
        ensures
            final(self).wf(),
            final(self)@ == old(self)@.remove_dentry(parent, name@),
    {
        match self.find_dentry_row(parent, name) {
            Some(i) => {
                proof {
                    crate::table::lemma_remove(self.dentries@, dentry_key(), dentry_val(), i as int);
                }
                self.dentries.remove(i);
            },
            None => {},
        }
        proof {
            crate::db::rules::lemma_remove_dentry_wf(old(self)@, parent, name@);
            assert(self@ =~= old(self)@.remove_dentry(parent, name@));
        }
    }

    // ------------------------------------------------------------------
    // Key/value pairs
    // ------------------------------------------------------------------
    /// Stores `value` under `key`, replacing what was there.
    pub fn set_sync_meta(&mut self, key: &str, value: &str, now: i64)
        requires
            old(self).wf(),
        ensures
            final(self).wf(),
            final(self)@ == old(self)@.set_sync_meta(key@, value@, now),
    {
        let row = MetaRow { key: String::from_str(key), value: String::from_str(value), updated_at: now };
        match self.find_meta_row(key) {
            Some(i) => {
                proof {
                    crate::table::lemma_update(self.meta@, meta_key(), meta_val(), i as int, row);
                }
                self.meta.set(i, row);
            },
            None => {
                proof {
                    crate::table::lemma_absent(self.meta@, meta_key(), meta_val(), key@);
                    crate::table::lemma_push(self.meta@, meta_key(), meta_val(), row);
                }
                self.meta.push(row);
            },
        }
        proof {
            crate::db::rules::lemma_set_sync_meta_wf(old(self)@, key@, value@, now);
            assert(self@ =~= old(self)@.set_sync_meta(key@, value@, now));
        }
    }

    /// The value stored under `key`, if any.
    pub fn get_sync_meta(&self, key: &str) -> (r: Option<String>)
        requires
            self.wf(),
        ensures
            opt_view(r) == self@.get_sync_meta(key@),
    {
        match self.find_meta_row(key) {
            Some(i) => Some(self.meta[i].value.clone()),
            None => None,
        }
    }

    // ------------------------------------------------------------------
    // Sync state
    // ------------------------------------------------------------------
    /// The last checksum that the remote was seen to have for `inode`.
    pub fn get_remote_md5(&self, inode: u64) -> (r: Option<String>)
        requires
            self.wf(),
        ensures
            opt_view(r) == self@.get_remote_md5(inode),
    {
        match self.find_sync_row(inode) {
            Some(i) => clone_opt(&self.sync[i].remote_md5),
            None => None,
        }
    }

    /// Records the remote checksum of `inode`. Fails with `NotFound`, and
    /// changes nothing, where the inode does not exist.
    pub fn set_remote_md5(&mut self, inode: u64, md5: &str) -> (r: Result<(), StoreError>)
        requires
            old(self).wf(),
        ensures
            final(self).wf(),
            old(self)@.inodes.contains_key(inode) ==> r is Ok && final(self)@
                == old(self)@.set_remote_md5(inode, md5@),
            !old(self)@.inodes.contains_key(inode) ==> r == Err::<(), StoreError>(
                StoreError::NotFound,
            ) && final(self)@ == old(self)@,
            (final(self)@, r) == old(self)@.try_set_remote_md5(inode, md5@),
    {
        if self.find_inode_row(inode).is_none() {
            return Err(StoreError::NotFound);
        }
        match self.find_sync_row(inode) {
            Some(i) => {
                self.sync[i].remote_md5 = Some(String::from_str(md5));
                proof {
                    crate::table::lemma_update(
                        old(self).sync@,
                        sync_key(),
                        sync_val(),
                        i as int,
                        self.sync[i as int],
                    );
                    assert(self.sync@ =~= old(self).sync@.update(i as int, self.sync[i as int]));
                }
            },
            None => {
                let row = SyncRow {
                    inode,
                    dirty: false,
                    version: 0,
                    remote_md5: Some(String::from_str(md5)),
                    deleted_at: None,
                };
                proof {
                    crate::table::lemma_push(old(self).sync@, sync_key(), sync_val(), row);
                }
                self.sync.push(row);
            },
        }
        proof {
            crate::db::rules::lemma_sync_wf(old(self)@, inode, md5@);
            assert(self@ =~= old(self)@.set_remote_md5(inode, md5@));
        }
        Ok(())
    }

    /// Marks `inode` as pushed. An inode without sync state is left as it is.
    pub fn mark_clean(&mut self, inode: u64)
        requires
            old(self).wf(),
        ensures
            final(self).wf(),
            final(self)@ == old(self)@.mark_clean(inode),
    {
        match self.find_sync_row(inode) {
            Some(i) => {
                self.sync[i].dirty = false;
                proof {
                    crate::table::lemma_update(
                        old(self).sync@,
                        sync_key(),
                        sync_val(),
                        i as int,
                        self.sync[i as int],
                    );
                    assert(self.sync@ =~= old(self).sync@.update(i as int, self.sync[i as int]));
                }
            },
            None => {},
        }
        proof {
            crate::db::rules::lemma_sync_wf(old(self)@, inode, Seq::empty());
            assert(self@ =~= old(self)@.mark_clean(inode));
        }
    }

    /// Forgets that `inode` is to be deleted remotely. An inode without sync
    /// state is left as it is.
    pub fn clear_deleted(&mut self, inode: u64)
        requires
            old(self).wf(),
        ensures
            final(self).wf(),
            final(self)@ == old(self)@.clear_deleted(inode),
    {
        match self.find_sync_row(inode) {
            Some(i) => {
                self.sync[i].deleted_at = None;
                proof {
                    crate::table::lemma_update(
                        old(self).sync@,
                        sync_key(),
                        sync_val(),
                        i as int,
                        self.sync[i as int],
                    );
                    assert(self.sync@ =~= old(self).sync@.update(i as int, self.sync[i as int]));
                }
            },
            None => {},
        }
        proof {
            crate::db::rules::lemma_sync_wf(old(self)@, inode, Seq::empty());
            assert(self@ =~= old(self)@.clear_deleted(inode));
        }
    }

    /// Whether `inode` has a local change to push, and since when it is to be
    /// deleted remotely; `None` where it has no sync state.
    pub fn sync_state(&self, inode: u64) -> (r: Option<(bool, Option<i64>)>)
        requires
            self.wf(),
        ensures
            r is Some <==> self@.sync.contains_key(inode),
            r is Some ==> r->0 == (self@.sync[inode].dirty, self@.sync[inode].deleted_at),
    {
        match self.find_sync_row(inode) {
            Some(i) => Some((self.sync[i].dirty, self.sync[i].deleted_at)),
            None => None,
        }
    }

    // ------------------------------------------------------------------
    // Tombstones
    // ------------------------------------------------------------------
    /// Soft-deletes the inode with the remote id `gdrive_id` at time `now`:
    /// its directory entry becomes a tombstone, and its sync state says that
    /// a deletion is to be pushed. Returns whether such an inode exists;
    /// where none does, nothing changes.
    pub fn soft_delete_by_gdrive_id(&mut self, gdrive_id: &str, now: i64) -> (r: bool)
        requires
            old(self).wf(),
        ensures
            final(self).wf(),
            final(self)@ == old(self)@.soft_delete(gdrive_id@, now),
            r == old(self)@.knows(gdrive_id@),
    {
        let child = match self.find_remote_row(gdrive_id) {
            Some(i) => self.inodes[i].inode,
            None => {
                return false;
            },
        };
        match self.find_link_row(child) {
            Some(i) => {
                proof {
                    crate::table::lemma_remove(self.dentries@, dentry_key(), dentry_val(), i as int);
                    self.lemma_wf();
                    assert(!self@.tombstones.contains_key(child));
                    crate::table::lemma_absent(
                        self.tombstones@,
                        tombstone_key(),
                        tombstone_val(),
                        child,
                    );
                }
                let row = self.dentries.remove(i);
                let tomb = TombstoneRow { child, parent: row.parent, name: row.name, deleted_at: now };
                proof {
                    crate::table::lemma_push(self.tombstones@, tombstone_key(), tombstone_val(), tomb);
                }
                self.tombstones.push(tomb);
            },
            None => {},
        }
        let ghost mid_sync = self.sync@;
        match self.find_sync_row(child) {
            Some(i) => {
                self.sync[i].dirty = true;
                self.sync[i].deleted_at = Some(now);
                proof {
                    crate::table::lemma_update(
                        mid_sync,
                        sync_key(),
                        sync_val(),
                        i as int,
                        self.sync[i as int],
                    );
                    assert(self.sync@ =~= mid_sync.update(i as int, self.sync[i as int]));
                }
            },
            None => {
                let row = SyncRow {
                    inode: child,
                    dirty: true,
                    version: 0,
                    remote_md5: None,
                    deleted_at: Some(now),
                };
                proof {
                    crate::table::lemma_absent(mid_sync, sync_key(), sync_val(), child);
                    crate::table::lemma_push(mid_sync, sync_key(), sync_val(), row);
                }
                self.sync.push(row);
            },
        }
        proof {
            crate::db::rules::lemma_soft_delete_wf(old(self)@, gdrive_id@, now);
            assert(self@ =~= old(self)@.soft_delete_inode(child, now));
        }
        true
    }

    /// Restores the inode with the remote id `gdrive_id`: its tombstone
    /// becomes a directory entry again, at the old place, and its sync state
    /// no longer asks for a deletion. Returns whether such an inode exists;
    /// where none does, nothing changes.
    pub fn restore_by_gdrive_id(&mut self, gdrive_id: &str) -> (r: bool)
        requires
            old(self).wf(),
        ensures
            final(self).wf(),
            final(self)@ == old(self)@.restore(gdrive_id@),
            r == old(self)@.knows(gdrive_id@),
    {
        let child = match self.find_remote_row(gdrive_id) {
            Some(i) => self.inodes[i].inode,
            None => {
                return false;
            },
        };
        match self.find_tombstone_row(child) {
            Some(i) => {
                proof {
                    crate::table::lemma_remove(
                        self.tombstones@,
                        tombstone_key(),
                        tombstone_val(),
                        i as int,
                    );
                }
                let tomb = self.tombstones.remove(i);
                let ghost mid = self.dentries@;
                match self.find_dentry_row(tomb.parent, tomb.name.as_str()) {
                    Some(j) => {
                        self.dentries[j].child = child;
                        proof {
                            crate::table::lemma_update(
                                mid,
                                dentry_key(),
                                dentry_val(),
                                j as int,
                                self.dentries[j as int],
                            );
                            assert(self.dentries@ =~= mid.update(j as int, self.dentries[j as int]));
                        }
                    },
                    None => {
                        let row = DentryRow { parent: tomb.parent, name: tomb.name, child };
                        proof {
                            crate::table::lemma_absent(
                                mid,
                                dentry_key(),
                                dentry_val(),
                                (row.parent, row.name@),
                            );
                            crate::table::lemma_push(mid, dentry_key(), dentry_val(), row);
                        }
                        self.dentries.push(row);
                    },
                }
            },
            None => {},
        }
        let ghost mid_sync = self.sync@;
        match self.find_sync_row(child) {
            Some(i) => {
                self.sync[i].deleted_at = None;
                proof {
                    crate::table::lemma_update(
                        mid_sync,
                        sync_key(),
                        sync_val(),
                        i as int,
                        self.sync[i as int],
                    );
                    assert(self.sync@ =~= mid_sync.update(i as int, self.sync[i as int]));
                }
            },
            None => {},
        }
        proof {
            crate::db::rules::lemma_restore_wf(old(self)@, gdrive_id@);
            assert(self@ =~= old(self)@.restore_inode(child));
        }
        true
    }

    /// Whether the inode with the remote id `gdrive_id` is soft-deleted.
    pub fn has_tombstone(&self, gdrive_id: &str) -> (r: bool)
        requires
            self.wf(),
        ensures
            r == self@.has_tombstone(gdrive_id@),
    {
        match self.find_remote_row(gdrive_id) {
            Some(i) => self.find_tombstone_row(self.inodes[i].inode).is_some(),
            None => false,
        }
    }
    // ------------------------------------------------------------------
    // Cached chunks
    // ------------------------------------------------------------------
    /// Records that the bytes `[start, end]` of `inode` are cached. Where a
    /// chunk with the same start exists, the longer of the two stays, so that
    /// what was cached stays cached. Fails with `NotFound` where the inode
    /// does not exist, with `Conflict` where `start > end` or the inode is a
    /// directory; nothing changes then.
    pub fn add_cached_chunk(&mut self, inode: u64, start: u64, end: u64) -> (r: Result<
        (),
        StoreError,
    >)
        requires
            old(self).wf(),
        ensures
            final(self).wf(),
            r is Ok ==> final(self)@ == old(self)@.add_chunk(inode, start, end),
            r is Err ==> final(self)@ == old(self)@,
            !old(self)@.inodes.contains_key(inode) <==> r == Err::<(), StoreError>(
                StoreError::NotFound,
            ),
            old(self)@.inodes.contains_key(inode) && (start > end || (old(self)@.attrs.contains_key(
                inode,
            ) && old(self)@.attrs[inode].is_dir)) <==> r == Err::<(), StoreError>(
                StoreError::Conflict,
            ),
            r is Ok <==> old(self)@.inodes.contains_key(inode) && start <= end && !(
            old(self)@.attrs.contains_key(inode) && old(self)@.attrs[inode].is_dir),
            (final(self)@, r) == old(self)@.try_add_chunk(inode, start, end),
    {
        if self.find_inode_row(inode).is_none() {
            return Err(StoreError::NotFound);
        }
        if start > end {
            return Err(StoreError::Conflict);
        }
        match self.find_attr_row(inode) {
            Some(i) => {
                if self.attrs[i].is_dir {
                    return Err(StoreError::Conflict);
                }
            },
            None => {},
        }
        match self.find_chunk_row(inode, start) {
            Some(i) => {
                if self.chunks[i].end < end {
                    self.chunks[i].end = end;
                }
                proof {
                    crate::table::lemma_update(
                        old(self).chunks@,
                        chunk_key(),
                        chunk_val(),
                        i as int,
                        self.chunks[i as int],
                    );
                    assert(self.chunks@ =~= old(self).chunks@.update(i as int, self.chunks[i as int]));
                }
            },
            None => {
                let row = ChunkRow { inode, start, end };
                proof {
                    crate::table::lemma_absent(
                        self.chunks@,
                        chunk_key(),
                        chunk_val(),
                        (inode, start),
                    );
                    crate::table::lemma_push(self.chunks@, chunk_key(), chunk_val(), row);
                }
                self.chunks.push(row);
            },
        }
        proof {
            crate::db::rules::lemma_add_chunk_wf(old(self)@, inode, start, end);
            assert(self@ =~= old(self)@.add_chunk(inode, start, end));
        }
        Ok(())
    }

    /// The parts of `[requested_start, requested_end]` that no chunk of
    /// `inode` holds: non-empty ranges, sorted, disjoint and coalesced. The
    /// list is empty where `requested_start > requested_end`.
    pub fn get_missing_ranges(&self, inode: u64, requested_start: u64, requested_end: u64) -> (missing:
        Vec<(u64, u64)>)
        requires
            self.wf(),
        ensures
            self@.is_missing(inode, requested_start, requested_end, missing@),
    {
        let mut sorted: Vec<(u64, u64)> = Vec::new();
        let mut i: usize = 0;
        while i < self.chunks.len()
            invariant
                self.wf(),
                i <= self.chunks.len(),
                crate::ranges::well_formed(sorted@),
                crate::ranges::sorted_by_start(sorted@),
                forall|x: int|
                    crate::ranges::covered_by(sorted@, x) <==> row_covers(
                        self.chunks@,
                        i as int,
                        inode,
                        x,
                    ),
            decreases self.chunks.len() - i,
        {
            if self.chunks[i].inode == inode {
                let range = (self.chunks[i].start, self.chunks[i].end);
                proof {
                    crate::table::lemma_row(self.chunks@, chunk_key(), chunk_val(), i as int);
                    self.lemma_wf();
                    assert(self@.chunks.contains_key((inode, range.0)));
                }
                let ghost before = sorted@;
                crate::ranges::insert_by_start(&mut sorted, range);
                proof {
                    assert forall|x: int|
                        crate::ranges::covered_by(sorted@, x) <==> row_covers(
                            self.chunks@,
                            i + 1,
                            inode,
                            x,
                        ) by {
                        lemma_row_covers_step(self.chunks@, i as int, inode, x);
                        assert(crate::ranges::covered_by(sorted@, x) <==> crate::ranges::covered_by(
                            before,
                            x,
                        ) || crate::ranges::covers(range, x));
                        assert(crate::ranges::covered_by(before, x) <==> row_covers(
                            self.chunks@,
                            i as int,
                            inode,
                            x,
                        ));
                        assert(crate::ranges::covers(range, x) <==> row_covers_at(
                            self.chunks@,
                            i as int,
                            inode,
                            x,
                        ));
                    }
                }
            } else {
                proof {
                    assert forall|x: int|
                        crate::ranges::covered_by(sorted@, x) <==> row_covers(
                            self.chunks@,
                            i + 1,
                            inode,
                            x,
                        ) by {
                        lemma_row_covers_step(self.chunks@, i as int, inode, x);
                    }
                }
            }
            i += 1;
        }
        let missing = crate::ranges::missing_ranges(&sorted, requested_start, requested_end);
        proof {
            assert forall|x: int| requested_start <= x <= requested_end implies (
            crate::ranges::covered_by(missing@, x) <==> !self@.cached(inode, x)) by {
                if self@.cached(inode, x) {
                    let start = choose|start: u64| #[trigger]
                        self@.chunks.contains_key((inode, start)) && start <= x
                            <= self@.chunks[(inode, start)];
                    let j = crate::table::lemma_find(
                        self.chunks@,
                        chunk_key(),
                        chunk_val(),
                        (inode, start),
                    );
                    assert(row_covers_at(self.chunks@, j, inode, x));
                }
                if row_covers(self.chunks@, self.chunks.len() as int, inode, x) {
                    let j = choose|j: int|
                        0 <= j < self.chunks.len() && #[trigger] row_covers_at(
                            self.chunks@,
                            j,
                            inode,
                            x,
                        );
                    crate::table::lemma_row(self.chunks@, chunk_key(), chunk_val(), j);
                    assert(self@.chunks.contains_key((inode, self.chunks[j].start)));
                }
            }
        }
        missing
    }

    /// Forgets every chunk of `inode`.
    pub fn clear_cached_chunks(&mut self, inode: u64)
        requires
            old(self).wf(),
        ensures
            final(self).wf(),
            final(self)@ == old(self)@.clear_chunks(inode),
    {
        let mut one: Vec<u64> = Vec::new();
        one.push(inode);
        drop_chunk_rows(&mut self.chunks, &one);
        proof {
            assert forall|x: u64| one@.contains(x) <==> x == inode by {
                if x == inode {
                    assert(one@[0] == inode);
                }
            }
            crate::db::rules::lemma_clear_chunks_wf(old(self)@, inode);
            assert(self@.chunks =~= old(self)@.clear_chunks(inode).chunks);
            assert(self@ =~= old(self)@.clear_chunks(inode));
        }
    }

    // ------------------------------------------------------------------
    // Purge
    // ------------------------------------------------------------------
    /// Hard-deletes every inode whose tombstone is older than `grace_days`
    /// days at time `now`, with all the rows that name it, and returns how
    /// many inodes went.
    pub fn purge_expired_tombstones(&mut self, grace_days: i64, now: i64) -> (purged: u64)
        requires
            old(self).wf(),
        ensures
            final(self).wf(),
            final(self)@ == old(self)@.purge(grace_days, now),
            old(self)@.expired_set(grace_days, now).finite(),
            purged == old(self)@.expired_set(grace_days, now).len(),
    {
        let cutoff: i128 = (now as i128) - (grace_days as i128) * 86400;
        let mut gone: Vec<u64> = Vec::new();
        let mut i: usize = 0;
        while i < self.tombstones.len()
            invariant
                self.wf(),
                *self == *old(self),
                i <= self.tombstones.len(),
                cutoff == now - grace_days * 86400,
                gone@.no_duplicates(),
                gone@.len() <= i,
                forall|c: u64|
                    gone@.contains(c) <==> exists|j: int|
                        0 <= j < i && #[trigger] expired_at(self.tombstones@, j, c, cutoff as int),
            decreases self.tombstones.len() - i,
        {
            let ghost before = gone@;
            if (self.tombstones[i].deleted_at as i128) < cutoff {
                let child = self.tombstones[i].child;
                proof {
                    if before.contains(child) {
                        let j = choose|j: int|
                            0 <= j < i && #[trigger] expired_at(
                                self.tombstones@,
                                j,
                                child,
                                cutoff as int,
                            );
                        assert(tombstone_key()(self.tombstones[j]) == tombstone_key()(
                            self.tombstones[i as int],
                        ));
                    }
                }
                gone.push(child);
                proof {
                    assert forall|c: u64| gone@.contains(c) <==> exists|j: int|
                        0 <= j < i + 1 && #[trigger] expired_at(
                            self.tombstones@,
                            j,
                            c,
                            cutoff as int,
                        ) by {
                        if gone@.contains(c) {
                            let k = choose|k: int| 0 <= k < gone@.len() && gone@[k] == c;
                            if k < before.len() {
                                assert(before[k] == c);
                                assert(before.contains(c));
                                let j = choose|j: int|
                                    0 <= j < i && #[trigger] expired_at(
                                        self.tombstones@,
                                        j,
                                        c,
                                        cutoff as int,
                                    );
                                assert(expired_at(self.tombstones@, j, c, cutoff as int));
                            } else {
                                assert(expired_at(self.tombstones@, i as int, c, cutoff as int));
                            }
                        }
                        if exists|j: int|
                            0 <= j < i + 1 && #[trigger] expired_at(
                                self.tombstones@,
                                j,
                                c,
                                cutoff as int,
                            ) {
                            let j = choose|j: int|
                                0 <= j < i + 1 && #[trigger] expired_at(
                                    self.tombstones@,
                                    j,
                                    c,
                                    cutoff as int,
                                );
                            if j < i {
                                assert(before.contains(c));
                                let k = choose|k: int| 0 <= k < before.len() && before[k] == c;
                                assert(gone@[k] == c);
                            } else {
                                assert(gone@[before.len() as int] == c);
                            }
                        }
                    }
                }
            } else {
                proof {
                    assert forall|c: u64| gone@.contains(c) <==> exists|j: int|
                        0 <= j < i + 1 && #[trigger] expired_at(
                            self.tombstones@,
                            j,
                            c,
                            cutoff as int,
                        ) by {
                        if gone@.contains(c) {
                            let j = choose|j: int|
                                0 <= j < i && #[trigger] expired_at(
                                    self.tombstones@,
                                    j,
                                    c,
                                    cutoff as int,
                                );
                            assert(expired_at(self.tombstones@, j, c, cutoff as int));
                        }
                    }
                }
            }
            i += 1;
        }
        let ghost doomed = old(self)@.expired_set(grace_days, now);
        proof {
            assert forall|c: u64| gone@.contains(c) <==> doomed.contains(c) by {
                if gone@.contains(c) {
                    let j = choose|j: int|
                        0 <= j < i && #[trigger] expired_at(self.tombstones@, j, c, cutoff as int);
                    crate::table::lemma_row(self.tombstones@, tombstone_key(), tombstone_val(), j);
                }
                if doomed.contains(c) {
                    let j = crate::table::lemma_find(
                        self.tombstones@,
                        tombstone_key(),
                        tombstone_val(),
                        c,
                    );
                    assert(expired_at(self.tombstones@, j, c, cutoff as int));
                }
            }
            assert(gone@.to_set() =~= doomed);
            gone@.unique_seq_to_set();
            vstd::seq_lib::seq_to_set_is_finite(gone@);
        }
        drop_inode_rows(&mut self.inodes, &gone);
        drop_attr_rows(&mut self.attrs, &gone);
        drop_sync_rows(&mut self.sync, &gone);
        drop_chunk_rows(&mut self.chunks, &gone);
        drop_dentry_rows(&mut self.dentries, &gone);
        drop_tombstone_rows(&mut self.tombstones, &gone);
        proof {
            let want = old(self)@.without_inodes(doomed);
            assert(self@.inodes =~= want.inodes);
            assert(self@.attrs =~= want.attrs);
            assert(self@.sync =~= want.sync);
            assert(self@.chunks =~= want.chunks);
            assert(self@.dentries =~= want.dentries);
            assert(self@.tombstones =~= want.tombstones);
            assert(self@ =~= want);
            crate::db::rules::lemma_purge_wf(old(self)@, grace_days, now);
        }
        gone.len() as u64
    }
    // ------------------------------------------------------------------
    // Listings
    // ------------------------------------------------------------------
    /// The children of `parent_inode` that have attributes, by ascending
    /// name, each as `(inode, name, is_dir, mime type, remote id)`.
    pub fn list_children_extended(&self, parent_inode: u64) -> (out: Vec<ChildRow>)
        requires
            self.wf(),
        ensures
            self@.is_listing_extended(parent_inode, children_view(out@)),
    {
        let mut out: Vec<ChildRow> = Vec::new();
        let mut i: usize = 0;
        while i < self.dentries.len()
            invariant
                self.wf(),
                i <= self.dentries.len(),
                names_sorted(out@),
                forall|a: int|
                    0 <= a < out.len() ==> self@.listed(parent_inode, (#[trigger] out[a]).1@)
                        && child_view(out[a]) == self@.child_entry(parent_inode, out[a].1@),
                forall|a: int|
                    0 <= a < out.len() ==> named_before(
                        self.dentries@,
                        i as int,
                        parent_inode,
                        (#[trigger] out[a]).1@,
                    ),
                forall|j: int|
                    0 <= j < i && (#[trigger] self.dentries[j]).parent == parent_inode
                        && self@.listed(parent_inode, self.dentries[j].name@) ==> has_name(
                        out@,
                        self.dentries[j].name@,
                    ),
            decreases self.dentries.len() - i,
        {
            let ghost before = out@;
            if self.dentries[i].parent == parent_inode {
                let child = self.dentries[i].child;
                proof {
                    crate::table::lemma_row(self.dentries@, dentry_key(), dentry_val(), i as int);
                }
                match self.find_attr_row(child) {
                    Some(ai) => {
                        match self.find_inode_row(child) {
                            Some(ii) => {
                                let entry: ChildRow = (
                                    child,
                                    self.dentries[i].name.clone(),
                                    self.attrs[ai].is_dir,
                                    clone_opt(&self.attrs[ai].mime_type),
                                    self.inodes[ii].remote_id.clone(),
                                );
                                proof {
                                    if has_name(before, entry.1@) {
                                        let a = choose|a: int|
                                            0 <= a < before.len() && (#[trigger] before[a]).1@
                                                == entry.1@;
                                        assert(named_before(
                                            self.dentries@,
                                            i as int,
                                            parent_inode,
                                            before[a].1@,
                                        ));
                                        let j = choose|j: int|
                                            0 <= j < i && #[trigger] names_row(
                                                self.dentries@,
                                                j,
                                                parent_inode,
                                                entry.1@,
                                            );
                                        assert(dentry_key()(self.dentries[j]) == dentry_key()(
                                            self.dentries[i as int],
                                        ));
                                    }
                                }
                                let at = insert_child(&mut out, entry);
                                proof {
                                    lemma_inserted(before, at as int, entry);
                                    assert(names_row(
                                        self.dentries@,
                                        i as int,
                                        parent_inode,
                                        entry.1@,
                                    ));
                                }
                            },
                            None => {
                                proof {
                                    self.lemma_wf();
                                }
                            },
                        }
                    },
                    None => {},
                }
            }
            proof {
                assert forall|a: int| 0 <= a < out.len() implies named_before(
                    self.dentries@,
                    i + 1,
                    parent_inode,
                    (#[trigger] out[a]).1@,
                ) by {
                    let n = out[a].1@;
                    if has_name(before, n) {
                        let b = choose|b: int| 0 <= b < before.len() && (#[trigger] before[b]).1@
                            == n;
                        assert(named_before(self.dentries@, i as int, parent_inode, before[b].1@));
                        let j = choose|j: int|
                            0 <= j < i && #[trigger] names_row(self.dentries@, j, parent_inode, n);
                        assert(names_row(self.dentries@, j, parent_inode, n));
                    } else {
                        assert(names_row(self.dentries@, i as int, parent_inode, n));
                    }
                }
                assert forall|j: int|
                    0 <= j < i + 1 && (#[trigger] self.dentries[j]).parent == parent_inode
                        && self@.listed(parent_inode, self.dentries[j].name@) implies has_name(
                    out@,
                    self.dentries[j].name@,
                ) by {
                    if j < i {
                        assert(has_name(before, self.dentries[j].name@));
                    }
                }
            }
            i += 1;
        }
        proof {
            let view = children_view(out@);
            assert forall|a: int| 0 <= a < view.len() implies self@.listed(
                parent_inode,
                (#[trigger] view[a]).1,
            ) && view[a] == self@.child_entry(parent_inode, view[a].1) by {
                assert(view[a] == child_view(out[a]));
            }
            assert forall|name: Seq<char>| #[trigger]
                self@.listed(parent_inode, name) implies exists|a: int|
                0 <= a < view.len() && (#[trigger] view[a]).1 == name by {
                let j = crate::table::lemma_find(
                    self.dentries@,
                    dentry_key(),
                    dentry_val(),
                    (parent_inode, name),
                );
                assert(self.dentries[j].parent == parent_inode);
                assert(has_name(out@, name));
                let a = choose|a: int| 0 <= a < out.len() && (#[trigger] out[a]).1@ == name;
                assert(view[a] == child_view(out[a]));
            }
            assert forall|a: int, b: int| 0 <= a < b < view.len() implies crate::text::lex_lt(
                (#[trigger] view[a]).1,
                (#[trigger] view[b]).1,
            ) by {
                assert(view[a] == child_view(out[a]) && view[b] == child_view(out[b]));
            }
        }
        out
    }

    /// The children of `parent_inode` that have attributes, by ascending
    /// name, each as `(inode, name, is_dir)`.
    pub fn list_children(&self, parent_inode: u64) -> (out: Vec<(u64, String, bool)>)
        requires
            self.wf(),
        ensures
            self@.is_listing(parent_inode, short_view(out@)),
    {
        let mut full = self.list_children_extended(parent_inode);
        let ghost listing = children_view(full@);
        let mut out: Vec<(u64, String, bool)> = Vec::new();
        let mut i: usize = 0;
        while i < full.len()
            invariant
                i <= full.len(),
                out.len() == i,
                children_view(full@) == listing,
                forall|a: int|
                    0 <= a < i ==> (#[trigger] out[a]).0 == listing[a].0 && out[a].1@
                        == listing[a].1 && out[a].2 == listing[a].2,
            decreases full.len() - i,
        {
            let entry = (full[i].0, full[i].1.clone(), full[i].2);
            proof {
                assert(listing[i as int] == child_view(full[i as int]));
            }
            out.push(entry);
            i += 1;
        }
        proof {
            let view = short_view(out@);
            assert forall|a: int| 0 <= a < view.len() implies (#[trigger] view[a]) == (
                listing[a].0,
                listing[a].1,
                listing[a].2,
            ) by {
                assert(view[a] == (out[a].0, out[a].1@, out[a].2));
            }
            assert forall|name: Seq<char>| #[trigger]
                self@.listed(parent_inode, name) implies exists|a: int|
                0 <= a < view.len() && (#[trigger] view[a]).1 == name by {
                let a = choose|a: int| 0 <= a < listing.len() && (#[trigger] listing[a]).1 == name;
                assert(view[a].1 == name);
            }
            assert forall|a: int| 0 <= a < view.len() implies self@.listed(
                parent_inode,
                (#[trigger] view[a]).1,
            ) && view[a] == (
                self@.child_entry(parent_inode, view[a].1).0,
                view[a].1,
                self@.child_entry(parent_inode, view[a].1).2,
            ) by {
                assert(self@.listed(parent_inode, listing[a].1));
            }
            assert forall|a: int, b: int| 0 <= a < b < view.len() implies crate::text::lex_lt(
                (#[trigger] view[a]).1,
                (#[trigger] view[b]).1,
            ) by {
                assert(crate::text::lex_lt(listing[a].1, listing[b].1));
            }
        }
        out
    }

    /// The number of entries under `parent_inode`, with or without
    /// attributes.
    pub fn count_children(&self, parent_inode: u64) -> (count: u64)
        requires
            self.wf(),
        ensures
            self@.names_under(parent_inode).finite(),
            count == self@.names_under(parent_inode).len(),
            count <= usize::MAX,
    {
        let mut count: u64 = 0;
        let ghost mut seen: Set<Seq<char>> = Set::empty();
        let mut i: usize = 0;
        while i < self.dentries.len()
            invariant
                self.wf(),
                i <= self.dentries.len(),
                count <= i,
                seen.finite(),
                seen.len() == count,
                forall|n: Seq<char>|
                    seen.contains(n) <==> named_before(self.dentries@, i as int, parent_inode, n),
            decreases self.dentries.len() - i,
        {
            let ghost before = seen;
            if self.dentries[i].parent == parent_inode {
                proof {
                    let n = self.dentries[i as int].name@;
                    if before.contains(n) {
                        let j = choose|j: int|
                            0 <= j < i && #[trigger] names_row(self.dentries@, j, parent_inode, n);
                        assert(dentry_key()(self.dentries[j]) == dentry_key()(
                            self.dentries[i as int],
                        ));
                    }
                    seen = before.insert(n);
                }
                count += 1;
            }
            proof {
                assert forall|n: Seq<char>| seen.contains(n) <==> named_before(
                    self.dentries@,
                    i + 1,
                    parent_inode,
                    n,
                ) by {
                    if named_before(self.dentries@, i + 1, parent_inode, n) {
                        let j = choose|j: int|
                            0 <= j < i + 1 && #[trigger] names_row(
                                self.dentries@,
                                j,
                                parent_inode,
                                n,
                            );
                        if j < i {
                            assert(named_before(self.dentries@, i as int, parent_inode, n));
                        }
                    }
                    if seen.contains(n) {
                        if before.contains(n) {
                            let j = choose|j: int|
                                0 <= j < i && #[trigger] names_row(
                                    self.dentries@,
                                    j,
                                    parent_inode,
                                    n,
                                );
                            assert(names_row(self.dentries@, j, parent_inode, n));
                        } else {
                            assert(names_row(self.dentries@, i as int, parent_inode, n));
                        }
                    }
                }
            }
            i += 1;
        }
        proof {
            assert forall|n: Seq<char>| seen.contains(n) <==> self@.names_under(
                parent_inode,
            ).contains(n) by {
                if seen.contains(n) {
                    let j = choose|j: int|
                        0 <= j < i && #[trigger] names_row(self.dentries@, j, parent_inode, n);
                    crate::table::lemma_row(self.dentries@, dentry_key(), dentry_val(), j);
                }
                if self@.names_under(parent_inode).contains(n) {
                    let j = crate::table::lemma_find(
                        self.dentries@,
                        dentry_key(),
                        dentry_val(),
                        (parent_inode, n),
                    );
                    assert(names_row(self.dentries@, j, parent_inode, n));
                }
            }
            assert(seen =~= self@.names_under(parent_inode));
        }
        count
    }

    /// The inodes that have a local change to push, each once, as `(inode,
    /// remote id, whether the change is a deletion)`.
    pub fn dirty_files(&self) -> (out: Vec<(u64, String, bool)>)
        requires
            self.wf(),
        ensures
            self@.is_dirty_list(short_view(out@)),
    {
        let mut out: Vec<(u64, String, bool)> = Vec::new();
        let mut i: usize = 0;
        while i < self.sync.len()
            invariant
                self.wf(),
                i <= self.sync.len(),
                forall|a: int|
                    0 <= a < out.len() ==> {
                        let e = #[trigger] out[a];
                        &&& self@.sync.contains_key(e.0)
                        &&& self@.sync[e.0].dirty
                        &&& self@.inodes.contains_key(e.0)
                        &&& e.1@ == self@.inodes[e.0].remote_id
                        &&& e.2 == (self@.sync[e.0].deleted_at is Some)
                        &&& exists|j: int| 0 <= j < i && (#[trigger] self.sync[j]).inode == e.0
                    },
                forall|j: int|
                    0 <= j < i && (#[trigger] self.sync[j]).dirty ==> exists|a: int|
                        0 <= a < out.len() && (#[trigger] out[a]).0 == self.sync[j].inode,
                forall|a: int, b: int|
                    0 <= a < b < out.len() ==> (#[trigger] out[a]).0 != (#[trigger] out[b]).0,
            decreases self.sync.len() - i,
        {
            let ghost before = out@;
            if self.sync[i].dirty {
                let inode = self.sync[i].inode;
                proof {
                    crate::table::lemma_row(self.sync@, sync_key(), sync_val(), i as int);
                    self.lemma_wf();
                }
                match self.find_inode_row(inode) {
                    Some(ii) => {
                        let entry = (
                            inode,
                            self.inodes[ii].remote_id.clone(),
                            self.sync[i].deleted_at.is_some(),
                        );
                        proof {
                            assert forall|a: int| 0 <= a < before.len() implies (
                            #[trigger] before[a]).0 != inode by {
                                if before[a].0 == inode {
                                    let j = choose|j: int|
                                        0 <= j < i && (#[trigger] self.sync[j]).inode
                                            == before[a].0;
                                    assert(sync_key()(self.sync[j]) == sync_key()(
                                        self.sync[i as int],
                                    ));
                                }
                            }
                        }
                        out.push(entry);
                        proof {
                            assert(out[before.len() as int].0 == inode);
                            assert forall|a: int| 0 <= a < before.len() implies #[trigger] out[a]
                                == before[a] by {}
                        }
                    },
                    None => {},
                }
            }
            proof {
                assert forall|a: int| 0 <= a < out.len() implies exists|j: int|
                    0 <= j < i + 1 && (#[trigger] self.sync[j]).inode == (#[trigger] out[a]).0 by {
                    if a < before.len() {
                        assert(out[a] == before[a]);
                        let j = choose|j: int|
                            0 <= j < i && (#[trigger] self.sync[j]).inode == before[a].0;
                        assert(self.sync[j].inode == out[a].0);
                    } else {
                        assert(self.sync[i as int].inode == out[a].0);
                    }
                }
                assert forall|j: int| 0 <= j < i + 1 && (#[trigger] self.sync[j]).dirty implies exists|
                    a: int,
                | 0 <= a < out.len() && (#[trigger] out[a]).0 == self.sync[j].inode by {
                    if j < i {
                        let a = choose|a: int|
                            0 <= a < before.len() && (#[trigger] before[a]).0
                                == self.sync[j].inode;
                        assert(out[a] == before[a]);
                    } else {
                        assert(out[before.len() as int].0 == self.sync[j].inode);
                    }
                }
            }
            i += 1;
        }
        proof {
            let view = short_view(out@);
            assert forall|a: int| 0 <= a < view.len() implies {
                let e = #[trigger] view[a];
                &&& self@.sync.contains_key(e.0)
                &&& self@.sync[e.0].dirty
                &&& self@.inodes.contains_key(e.0)
                &&& e.1 == self@.inodes[e.0].remote_id
                &&& e.2 == (self@.sync[e.0].deleted_at is Some)
            } by {
                assert(view[a] == (out[a].0, out[a].1@, out[a].2));
            }
            assert forall|inode: u64|
                #[trigger] self@.sync.contains_key(inode) && self@.sync[inode].dirty implies exists|
                a: int,
            | 0 <= a < view.len() && (#[trigger] view[a]).0 == inode by {
                let j = crate::table::lemma_find(self.sync@, sync_key(), sync_val(), inode);
                assert(self.sync[j].dirty);
                let a = choose|a: int|
                    0 <= a < out.len() && (#[trigger] out[a]).0 == self.sync[j].inode;
                assert(view[a] == (out[a].0, out[a].1@, out[a].2));
            }
            assert forall|a: int, b: int| 0 <= a < b < view.len() implies (#[trigger] view[a]).0
                != (#[trigger] view[b]).0 by {
                assert(view[a] == (out[a].0, out[a].1@, out[a].2));
                assert(view[b] == (out[b].0, out[b].1@, out[b].2));
            }
        }
        out
    }
    // ------------------------------------------------------------------
    // The tables row by row
    // ------------------------------------------------------------------
    /// The rows of the directory entry table, each as `(parent, name, child)`.
    pub closed spec fn dentry_rows(&self) -> Seq<(u64, Seq<char>, u64)> {
        Seq::new(
            self.dentries@.len(),
            |i: int| (self.dentries[i].parent, self.dentries[i].name@, self.dentries[i].child),
        )
    }

    /// The rows of the tombstone table, each as `(child, parent, name,
    /// deleted_at)`.
    pub closed spec fn tombstone_rows(&self) -> Seq<(u64, u64, Seq<char>, i64)> {
        Seq::new(
            self.tombstones@.len(),
            |i: int|
                (
                    self.tombstones[i].child,
                    self.tombstones[i].parent,
                    self.tombstones[i].name@,
                    self.tombstones[i].deleted_at,
                ),
        )
    }

    /// The table of directory entries has at most one row for a `(parent,
    /// name)`, and its rows are the entries of the view.
    pub proof fn law_one_entry_per_name(&self, i: int, j: int)
        requires
            self.wf(),
            0 <= i < self.dentry_rows().len(),
            0 <= j < self.dentry_rows().len(),
            self.dentry_rows()[i].0 == self.dentry_rows()[j].0,
            self.dentry_rows()[i].1 == self.dentry_rows()[j].1,
        ensures
            i == j,
            self@.lookup(self.dentry_rows()[i].0, self.dentry_rows()[i].1) == Some(
                self.dentry_rows()[i].2,
            ),
    {
        assert(dentry_key()(self.dentries[i]) == dentry_key()(self.dentries[j]));
        crate::table::lemma_row(self.dentries@, dentry_key(), dentry_val(), i);
    }

    /// The table of tombstones has at most one row for an inode, and its rows
    /// are the tombstones of the view.
    pub proof fn law_one_tombstone_per_inode(&self, i: int, j: int)
        requires
            self.wf(),
            0 <= i < self.tombstone_rows().len(),
            0 <= j < self.tombstone_rows().len(),
            self.tombstone_rows()[i].0 == self.tombstone_rows()[j].0,
        ensures
            i == j,
            self@.tombstones.contains_key(self.tombstone_rows()[i].0),
            self@.tombstones[self.tombstone_rows()[i].0].parent == self.tombstone_rows()[i].1,
            self@.tombstones[self.tombstone_rows()[i].0].name == self.tombstone_rows()[i].2,
    {
        assert(tombstone_key()(self.tombstones[i]) == tombstone_key()(self.tombstones[j]));
        crate::table::lemma_row(self.tombstones@, tombstone_key(), tombstone_val(), i);
    }

    /// Every entry of the view is a row of the table, and every tombstone too.
    pub proof fn law_rows_are_complete(&self, k: (u64, Seq<char>), child: u64)
        requires
            self.wf(),
        ensures
            self@.dentries.contains_key(k) ==> exists|i: int|
                0 <= i < self.dentry_rows().len() && #[trigger] self.dentry_rows()[i] == (
                    k.0,
                    k.1,
                    self@.dentries[k],
                ),
            self@.tombstones.contains_key(child) ==> exists|i: int|
                0 <= i < self.tombstone_rows().len() && (#[trigger] self.tombstone_rows()[i]).0
                    == child,
    {
        if self@.dentries.contains_key(k) {
            let i = crate::table::lemma_find(self.dentries@, dentry_key(), dentry_val(), k);
            assert(self.dentry_rows()[i] == (k.0, k.1, self@.dentries[k]));
        }
        if self@.tombstones.contains_key(child) {
            let i = crate::table::lemma_find(
                self.tombstones@,
                tombstone_key(),
                tombstone_val(),
                child,
            );
            assert(self.tombstone_rows()[i].0 == child);
        }
    }
    // ------------------------------------------------------------------
    // Saving and loading
    // ------------------------------------------------------------------
    /// The next inode number that the store hands out.
    pub fn next_inode(&self) -> (next: u64)
        ensures
            next == self@.next_inode,
    {
        self.next_inode
    }

    /// The rows of the inode table.
    pub fn export_inodes(&self) -> (rows: Vec<InodeRow>)
        requires
            self.wf(),
        ensures
            unique_keys(rows@, inode_key()),
            as_map(rows@, inode_key(), inode_val()) == self@.inodes,
    {
        let mut rows: Vec<InodeRow> = Vec::new();
        let mut i: usize = 0;
        while i < self.inodes.len()
            invariant
                i <= self.inodes.len(),
                rows@ == self.inodes@.subrange(0, i as int),
            decreases self.inodes.len() - i,
        {
            let r = &self.inodes[i];
            rows.push(
                InodeRow {
                    inode: r.inode,
                    remote_id: r.remote_id.clone(),
                    generation: r.generation,
                    created_at: r.created_at,
                },
            );
            assert(rows@ =~= self.inodes@.subrange(0, i + 1));
            i += 1;
        }
        assert(rows@ =~= self.inodes@);
        rows
    }

    /// The rows of the attribute table.
    pub fn export_attrs(&self) -> (rows: Vec<AttrRow>)
        requires
            self.wf(),
        ensures
            unique_keys(rows@, attr_key()),
            as_map(rows@, attr_key(), attr_val()) == self@.attrs,
    {
        let mut rows: Vec<AttrRow> = Vec::new();
        let mut i: usize = 0;
        while i < self.attrs.len()
            invariant
                i <= self.attrs.len(),
                rows@ == self.attrs@.subrange(0, i as int),
            decreases self.attrs.len() - i,
        {
            let r = &self.attrs[i];
            rows.push(
                AttrRow {
                    inode: r.inode,
                    size: r.size,
                    mtime: r.mtime,
                    ctime: r.ctime,
                    mode: r.mode,
                    is_dir: r.is_dir,
                    mime_type: clone_opt_exact(&r.mime_type),
                },
            );
            assert(rows@ =~= self.attrs@.subrange(0, i + 1));
            i += 1;
        }
        assert(rows@ =~= self.attrs@);
        rows
    }

    /// The rows of the directory entry table.
    pub fn export_dentries(&self) -> (rows: Vec<DentryRow>)
        requires
            self.wf(),
        ensures
            unique_keys(rows@, dentry_key()),
            as_map(rows@, dentry_key(), dentry_val()) == self@.dentries,
    {
        let mut rows: Vec<DentryRow> = Vec::new();
        let mut i: usize = 0;
        while i < self.dentries.len()
            invariant
                i <= self.dentries.len(),
                rows@ == self.dentries@.subrange(0, i as int),
            decreases self.dentries.len() - i,
        {
            let r = &self.dentries[i];
            rows.push(
                DentryRow {
                    parent: r.parent,
                    name: r.name.clone(),
                    child: r.child,
                },
            );
            assert(rows@ =~= self.dentries@.subrange(0, i + 1));
            i += 1;
        }
        assert(rows@ =~= self.dentries@);
        rows
    }

    /// The rows of the tombstone table.
    pub fn export_tombstones(&self) -> (rows: Vec<TombstoneRow>)
        requires
            self.wf(),
        ensures
            unique_keys(rows@, tombstone_key()),
            as_map(rows@, tombstone_key(), tombstone_val()) == self@.tombstones,
    {
        let mut rows: Vec<TombstoneRow> = Vec::new();
        let mut i: usize = 0;
        while i < self.tombstones.len()
            invariant
                i <= self.tombstones.len(),
                rows@ == self.tombstones@.subrange(0, i as int),
            decreases self.tombstones.len() - i,
        {
            let r = &self.tombstones[i];
            rows.push(
                TombstoneRow {
                    child: r.child,
                    parent: r.parent,
                    name: r.name.clone(),
                    deleted_at: r.deleted_at,
                },
            );
            assert(rows@ =~= self.tombstones@.subrange(0, i + 1));
            i += 1;
        }
        assert(rows@ =~= self.tombstones@);
        rows
    }

    /// The rows of the sync table.
    pub fn export_sync(&self) -> (rows: Vec<SyncRow>)
        requires
            self.wf(),
        ensures
            unique_keys(rows@, sync_key()),
            as_map(rows@, sync_key(), sync_val()) == self@.sync,
    {
        let mut rows: Vec<SyncRow> = Vec::new();
        let mut i: usize = 0;
        while i < self.sync.len()
            invariant
                i <= self.sync.len(),
                rows@ == self.sync@.subrange(0, i as int),
            decreases self.sync.len() - i,
        {
            let r = &self.sync[i];
            rows.push(
                SyncRow {
                    inode: r.inode,
                    dirty: r.dirty,
                    version: r.version,
                    remote_md5: clone_opt_exact(&r.remote_md5),
                    deleted_at: r.deleted_at,
                },
            );
            assert(rows@ =~= self.sync@.subrange(0, i + 1));
            i += 1;
        }
        assert(rows@ =~= self.sync@);
        rows
    }

    /// The rows of the table of cached chunks.
    pub fn export_chunks(&self) -> (rows: Vec<ChunkRow>)
        requires
            self.wf(),
        ensures
            unique_keys(rows@, chunk_key()),
            as_map(rows@, chunk_key(), chunk_val()) == self@.chunks,
    {
        let mut rows: Vec<ChunkRow> = Vec::new();
        let mut i: usize = 0;
        while i < self.chunks.len()
            invariant
                i <= self.chunks.len(),
                rows@ == self.chunks@.subrange(0, i as int),
            decreases self.chunks.len() - i,
        {
            let r = &self.chunks[i];
            rows.push(
                ChunkRow {
                    inode: r.inode,
                    start: r.start,
                    end: r.end,
                },
            );
            assert(rows@ =~= self.chunks@.subrange(0, i + 1));
            i += 1;
        }
        assert(rows@ =~= self.chunks@);
        rows
    }

    /// The rows of the key/value table.
    pub fn export_meta(&self) -> (rows: Vec<MetaRow>)
        requires
            self.wf(),
        ensures
            unique_keys(rows@, meta_key()),
            as_map(rows@, meta_key(), meta_val()) == self@.meta,
    {
        let mut rows: Vec<MetaRow> = Vec::new();
        let mut i: usize = 0;
        while i < self.meta.len()
            invariant
                i <= self.meta.len(),
                rows@ == self.meta@.subrange(0, i as int),
            decreases self.meta.len() - i,
        {
            let r = &self.meta[i];
            rows.push(
                MetaRow {
                    key: r.key.clone(),
                    value: r.value.clone(),
                    updated_at: r.updated_at,
                },
            );
            assert(rows@ =~= self.meta@.subrange(0, i + 1));
            i += 1;
        }
        assert(rows@ =~= self.meta@);
        rows
    }

    /// Keeps the inode numbers below `next` from being handed out, as far
    /// as `next` is a number that the store can hand out at all.
    pub fn reserve_inodes(&mut self, next: u64)
        requires
            old(self).wf(),
        ensures
            final(self).wf(),
            final(self)@ == old(self)@.reserve_inodes(next),
    {
        if next > self.next_inode && next <= MAX_INODE + 1 {
            self.next_inode = next;
        }
        proof {
            crate::db::rules::lemma_load_wf(
                old(self)@,
                0,
                0,
                Seq::empty(),
                0,
                crate::db::model::fresh_sync(),
                next,
            );
            assert(self@ =~= old(self)@.reserve_inodes(next));
        }
    }

    /// Puts back the row of `inode` with the remote id `remote_id`. Fails with
    /// `Conflict`, and changes nothing, where the number is none that the
    /// store hands out, or the inode or the remote id exists already.
    pub fn restore_inode(&mut self, inode: u64, remote_id: &str, created_at: i64) -> (r: Result<
        (),
        StoreError,
    >)
        requires
            old(self).wf(),
        ensures
            final(self).wf(),
            (final(self)@, r) == old(self)@.try_restore_inode(inode, remote_id@, created_at),
    {
        if inode < 1 || inode > MAX_INODE {
            return Err(StoreError::Conflict);
        }
        if self.find_inode_row(inode).is_some() || self.find_remote_row(remote_id).is_some() {
            return Err(StoreError::Conflict);
        }
        let row = InodeRow {
            inode,
            remote_id: String::from_str(remote_id),
            generation: 0,
            created_at,
        };
        proof {
            crate::table::lemma_absent(self.inodes@, inode_key(), inode_val(), inode);
            crate::table::lemma_push(self.inodes@, inode_key(), inode_val(), row);
        }
        self.inodes.push(row);
        if inode >= self.next_inode {
            self.next_inode = inode + 1;
        }
        proof {
            crate::db::rules::lemma_insert_inode_wf(old(self)@, inode, remote_id@, created_at);
            assert(self@ =~= old(self)@.insert_inode(inode, remote_id@, created_at));
        }
        Ok(())
    }

    /// Gives the attributes of `inode` the creation time `ctime`. An inode
    /// without attributes is left as it is.
    pub fn set_ctime(&mut self, inode: u64, ctime: i64)
        requires
            old(self).wf(),
        ensures
            final(self).wf(),
            final(self)@ == old(self)@.set_ctime(inode, ctime),
    {
        match self.find_attr_row(inode) {
            Some(i) => {
                self.attrs[i].ctime = ctime;
                proof {
                    crate::table::lemma_update(
                        old(self).attrs@,
                        attr_key(),
                        attr_val(),
                        i as int,
                        self.attrs[i as int],
                    );
                    assert(self.attrs@ =~= old(self).attrs@.update(i as int, self.attrs[i as int]));
                }
            },
            None => {},
        }
        proof {
            crate::db::rules::lemma_load_wf(
                old(self)@,
                inode,
                0,
                Seq::empty(),
                ctime,
                crate::db::model::fresh_sync(),
                0,
            );
            assert(self@ =~= old(self)@.set_ctime(inode, ctime));
        }
    }

    /// Puts back the tombstone of `child`. Fails with `NotFound` where
    /// `child` or `parent` does not exist, with `Conflict` where `child` is
    /// visible; nothing changes then.
    pub fn restore_tombstone(&mut self, child: u64, parent: u64, name: &str, deleted_at: i64) -> (r:
        Result<(), StoreError>)
        requires
            old(self).wf(),
        ensures
            final(self).wf(),
            (final(self)@, r) == old(self)@.try_put_tombstone(child, parent, name@, deleted_at),
    {
        if self.find_inode_row(child).is_none() || self.find_inode_row(parent).is_none() {
            return Err(StoreError::NotFound);
        }
        if self.find_link_row(child).is_some() {
            return Err(StoreError::Conflict);
        }
        let row = TombstoneRow { child, parent, name: String::from_str(name), deleted_at };
        match self.find_tombstone_row(child) {
            Some(i) => {
                proof {
                    crate::table::lemma_update(
                        self.tombstones@,
                        tombstone_key(),
                        tombstone_val(),
                        i as int,
                        row,
                    );
                }
                self.tombstones.set(i, row);
            },
            None => {
                proof {
                    crate::table::lemma_absent(
                        self.tombstones@,
                        tombstone_key(),
                        tombstone_val(),
                        child,
                    );
                    crate::table::lemma_push(self.tombstones@, tombstone_key(), tombstone_val(), row);
                }
                self.tombstones.push(row);
            },
        }
        proof {
            crate::db::rules::lemma_load_wf(
                old(self)@,
                child,
                parent,
                name@,
                deleted_at,
                crate::db::model::fresh_sync(),
                0,
            );
            assert(self@ =~= old(self)@.put_tombstone(child, parent, name@, deleted_at));
        }
        Ok(())
    }

    /// Puts back the sync row of `inode`. Fails with `NotFound`, and changes
    /// nothing, where the inode does not exist.
    pub fn restore_sync(
        &mut self,
        inode: u64,
        dirty: bool,
        version: i64,
        remote_md5: Option<&str>,
        deleted_at: Option<i64>,
    ) -> (r: Result<(), StoreError>)
        requires
            old(self).wf(),
        ensures
            final(self).wf(),
            (final(self)@, r) == old(self)@.try_put_sync(
                inode,
                SyncModel { dirty, version, remote_md5: opt_str_view(remote_md5), deleted_at },
            ),
    {
        if self.find_inode_row(inode).is_none() {
            return Err(StoreError::NotFound);
        }
        let md5: Option<String> = match remote_md5 {
            Some(m) => Some(String::from_str(m)),
            None => None,
        };
        let row = SyncRow { inode, dirty, version, remote_md5: md5, deleted_at };
        let ghost model = SyncModel {
            dirty,
            version,
            remote_md5: opt_str_view(remote_md5),
            deleted_at,
        };
        match self.find_sync_row(inode) {
            Some(i) => {
                proof {
                    crate::table::lemma_update(self.sync@, sync_key(), sync_val(), i as int, row);
                }
                self.sync.set(i, row);
            },
            None => {
                proof {
                    crate::table::lemma_absent(self.sync@, sync_key(), sync_val(), inode);
                    crate::table::lemma_push(self.sync@, sync_key(), sync_val(), row);
                }
                self.sync.push(row);
            },
        }
        proof {
            crate::db::rules::lemma_load_wf(old(self)@, inode, 0, Seq::empty(), 0, model, 0);
            assert(self@ =~= old(self)@.put_sync(inode, model));
        }
        Ok(())
    }
}

/// A row of a listing: inode, name, whether it is a directory, mime type
/// and remote id.
pub type ChildRow = (u64, String, bool, Option<String>, String);

/// The view of a row of a listing.
pub open spec fn child_view(e: ChildRow) -> (u64, Seq<char>, bool, Option<Seq<char>>, Seq<char>) {
    (e.0, e.1@, e.2, opt_view(e.3), e.4@)
}

/// The view of a listing.
pub open spec fn children_view(v: Seq<ChildRow>) -> Seq<
    (u64, Seq<char>, bool, Option<Seq<char>>, Seq<char>),
> {
    Seq::new(v.len(), |i: int| child_view(v[i]))
}

/// The view of a list of `(inode, string, flag)`.
pub open spec fn short_view(v: Seq<(u64, String, bool)>) -> Seq<(u64, Seq<char>, bool)> {
    Seq::new(v.len(), |i: int| (v[i].0, v[i].1@, v[i].2))
}

/// The rows come by ascending name.
spec fn names_sorted(v: Seq<ChildRow>) -> bool {
    forall|a: int, b: int|
        0 <= a < b < v.len() ==> crate::text::lex_lt((#[trigger] v[a]).1@, (#[trigger] v[b]).1@)
}

/// Some row has the name `name`.
spec fn has_name(v: Seq<ChildRow>, name: Seq<char>) -> bool {
    exists|a: int| 0 <= a < v.len() && (#[trigger] v[a]).1@ == name
}

/// Row `j` is the entry `name` of `parent`.
spec fn names_row(rows: Seq<DentryRow>, j: int, parent: u64, name: Seq<char>) -> bool {
    rows[j].parent == parent && rows[j].name@ == name
}

/// One of the first `upto` rows is the entry `name` of `parent`.
spec fn named_before(rows: Seq<DentryRow>, upto: int, parent: u64, name: Seq<char>) -> bool {
    exists|j: int| 0 <= j < upto && #[trigger] names_row(rows, j, parent, name)
}

/// After an insertion a listing has the names it had, and the new one.
proof fn lemma_inserted(before: Seq<ChildRow>, at: int, entry: ChildRow)
    requires
        0 <= at <= before.len(),
    ensures
        forall|n: Seq<char>|
            has_name(before.insert(at, entry), n) <==> has_name(before, n) || n == entry.1@,
        forall|a: int|
            0 <= a < before.len() + 1 ==> (#[trigger] before.insert(at, entry)[a]) == (if a < at {
                before[a]
            } else if a == at {
                entry
            } else {
                before[a - 1]
            }),
{
    let after = before.insert(at, entry);
    assert forall|n: Seq<char>| has_name(after, n) <==> has_name(before, n) || n
        == entry.1@ by {
        if has_name(before, n) {
            let a = choose|a: int| 0 <= a < before.len() && (#[trigger] before[a]).1@ == n;
            if a < at {
                assert(after[a] == before[a]);
            } else {
                assert(after[a + 1] == before[a]);
            }
        }
        if n == entry.1@ {
            assert(after[at] == entry);
        }
        if has_name(after, n) {
            let a = choose|a: int| 0 <= a < after.len() && (#[trigger] after[a]).1@ == n;
            if a < at {
                assert(after[a] == before[a]);
            } else if a > at {
                assert(after[a] == before[a - 1]);
            }
        }
    }
}

/// Puts `entry` into the listing `out` where its name belongs.
fn insert_child(out: &mut Vec<ChildRow>, entry: ChildRow) -> (at: usize)
    requires
        names_sorted(old(out)@),
        !has_name(old(out)@, entry.1@),
    ensures
        at <= old(out)@.len(),
        final(out)@ == old(out)@.insert(at as int, entry),
        names_sorted(final(out)@),
{
    let mut at: usize = 0;
    while at < out.len() && crate::text::lex_less(out[at].1.as_str(), entry.1.as_str())
        invariant
            at <= out.len(),
            out@ == old(out)@,
            forall|j: int| 0 <= j < at ==> crate::text::lex_lt((#[trigger] out[j]).1@, entry.1@),
        decreases out.len() - at,
    {
        at += 1;
    }
    let ghost before = out@;
    proof {
        assert forall|b: int| at <= b < before.len() implies crate::text::lex_lt(
            entry.1@,
            (#[trigger] before[b]).1@,
        ) by {
            crate::text::lemma_lex_total(before[at as int].1@, entry.1@);
            assert(before[at as int].1@ != entry.1@);
            if b > at {
                crate::text::lemma_lex_trans(entry.1@, before[at as int].1@, before[b].1@);
            }
        }
    }
    out.insert(at, entry);
    proof {
        lemma_inserted(before, at as int, entry);
        assert forall|a: int, b: int| 0 <= a < b < out.len() implies crate::text::lex_lt(
            (#[trigger] out[a]).1@,
            (#[trigger] out[b]).1@,
        ) by {
            if a < at && b > at {
                assert(crate::text::lex_lt(before[a].1@, before[b - 1].1@));
            } else if a > at {
                assert(crate::text::lex_lt(before[a - 1].1@, before[b - 1].1@));
            }
        }
    }
    at
}


/// Row `j` is a chunk of `inode` that holds the offset `x`.
spec fn row_covers_at(rows: Seq<ChunkRow>, j: int, inode: u64, x: int) -> bool {
    rows[j].inode == inode && rows[j].start <= x <= rows[j].end
}

/// One of the first `upto` rows is a chunk of `inode` that holds the offset `x`.
spec fn row_covers(rows: Seq<ChunkRow>, upto: int, inode: u64, x: int) -> bool {
    exists|j: int| 0 <= j < upto && #[trigger] row_covers_at(rows, j, inode, x)
}

/// One more row adds what it covers.
proof fn lemma_row_covers_step(rows: Seq<ChunkRow>, i: int, inode: u64, x: int)
    requires
        0 <= i < rows.len(),
    ensures
        row_covers(rows, i + 1, inode, x) <==> row_covers(rows, i, inode, x) || row_covers_at(
            rows,
            i,
            inode,
            x,
        ),
{
    if row_covers(rows, i + 1, inode, x) {
        let j = choose|j: int| 0 <= j < i + 1 && #[trigger] row_covers_at(rows, j, inode, x);
        if j < i {
            assert(row_covers(rows, i, inode, x));
        }
    }
    if row_covers(rows, i, inode, x) {
        let j = choose|j: int| 0 <= j < i && #[trigger] row_covers_at(rows, j, inode, x);
        assert(row_covers_at(rows, j, inode, x));
    }
}

/// Row `j` is the tombstone of `child`, deleted before `cutoff`.
spec fn expired_at(rows: Seq<TombstoneRow>, j: int, child: u64, cutoff: int) -> bool {
    rows[j].child == child && rows[j].deleted_at < cutoff
}

} // verus!
