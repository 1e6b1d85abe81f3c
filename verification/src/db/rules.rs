//! Every operation of the store keeps the rules of the store.
use vstd::prelude::*;
use crate::db::model::{root_id, StoreModel, MAX_INODE, ROOT_INODE};

verus! {

/// An inode is found by its remote id.
pub proof fn lemma_inode_of(m: StoreModel, i: u64)
    requires
        m.remote_ids_unique(),
        m.inodes.contains_key(i),
    ensures
        m.knows(m.inodes[i].remote_id),
        m.inode_of(m.inodes[i].remote_id) == i,
        m.find_inode(m.inodes[i].remote_id) == Some(i),
{
    let rid = m.inodes[i].remote_id;
    assert(m.inodes.contains_key(i) && m.inodes[i].remote_id == rid);
}

/// A known remote id leads to an inode that has it.
pub proof fn lemma_known(m: StoreModel, remote_id: Seq<char>)
    requires
        m.knows(remote_id),
    ensures
        m.inodes.contains_key(m.inode_of(remote_id)),
        m.inodes[m.inode_of(remote_id)].remote_id == remote_id,
{
}

/// A child is found by the entry that leads to it.
pub proof fn lemma_link_of(m: StoreModel, k: (u64, Seq<char>))
    requires
        m.children_unique(),
        m.dentries.contains_key(k),
    ensures
        m.is_linked(m.dentries[k]),
        m.link_of(m.dentries[k]) == k,
{
    let c = m.dentries[k];
    assert(m.dentries.contains_key(k) && m.dentries[k] == c);
}

/// The entry of a visible child leads to it.
pub proof fn lemma_linked(m: StoreModel, child: u64)
    requires
        m.is_linked(child),
    ensures
        m.dentries.contains_key(m.link_of(child)),
        m.dentries[m.link_of(child)] == child,
{
}

/// Without the entry of `child`, no entry leads to `child`.
pub proof fn lemma_dentries_without(m: StoreModel, child: u64)
    requires
        m.children_unique(),
    ensures
        forall|k: (u64, Seq<char>)| #[trigger]
            m.dentries_without(child).contains_key(k) ==> m.dentries.contains_key(k)
                && m.dentries[k] == m.dentries_without(child)[k] && m.dentries[k] != child,
        forall|k: (u64, Seq<char>)|
            m.dentries.contains_key(k) && #[trigger] m.dentries[k] != child
                ==> m.dentries_without(child).contains_key(k),
{
    if m.is_linked(child) {
        lemma_linked(m, child);
        assert forall|k: (u64, Seq<char>)| #[trigger]
            m.dentries_without(child).contains_key(k) implies m.dentries[k] != child by {
            if m.dentries[k] == child {
                lemma_link_of(m, k);
            }
        }
    }
}

/// A new inode row keeps the rules.
pub proof fn lemma_insert_inode_wf(m: StoreModel, inode: u64, remote_id: Seq<char>, now: i64)
    requires
        m.wf(),
        !m.inodes.contains_key(inode),
        !m.knows(remote_id),
        1 <= inode <= MAX_INODE,
    ensures
        m.insert_inode(inode, remote_id, now).wf(),
{
    let n = m.insert_inode(inode, remote_id, now);
    assert forall|i: u64, j: u64|
        n.inodes.contains_key(i) && n.inodes.contains_key(j) && (
        #[trigger] n.inodes[i]).remote_id == (#[trigger] n.inodes[j]).remote_id implies i == j by {
        if i != inode && j != inode {
            assert(m.inodes[i].remote_id == m.inodes[j].remote_id);
        } else if i != inode {
            assert(m.inodes.contains_key(i) && m.inodes[i].remote_id == remote_id);
        } else if j != inode {
            assert(m.inodes.contains_key(j) && m.inodes[j].remote_id == remote_id);
        }
    }
}

/// Installing the root keeps the rules.
pub proof fn lemma_ensure_root_wf(m: StoreModel, now: i64)
    requires
        m.wf(),
        m.root_installable(),
    ensures
        m.ensure_root(now).wf(),
{
    let with_inode = if m.inodes.contains_key(ROOT_INODE) {
        m
    } else {
        m.insert_inode(ROOT_INODE, root_id(), now)
    };
    if !m.inodes.contains_key(ROOT_INODE) {
        if m.knows(root_id()) {
            lemma_known(m, root_id());
        }
        lemma_insert_inode_wf(m, ROOT_INODE, root_id(), now);
    }
    assert(with_inode.wf());
    let n = m.ensure_root(now);
    assert forall|k: (u64, u64)| #[trigger] n.chunks.contains_key(k) implies !(
    n.attrs.contains_key(k.0) && n.attrs[k.0].is_dir) by {
        if k.0 == ROOT_INODE && !m.attrs.contains_key(ROOT_INODE) {
            assert(m.chunks.contains_key((ROOT_INODE, k.1)));
            assert(m.has_chunks(ROOT_INODE));
        }
    }
}

/// Finding or creating an inode keeps the rules.
pub proof fn lemma_get_or_create_wf(m: StoreModel, remote_id: Seq<char>, now: i64)
    requires
        m.wf(),
        m.knows(remote_id) || m.next_inode <= MAX_INODE,
    ensures
        m.get_or_create_inode(remote_id, now).0.wf(),
        m.get_or_create_inode(remote_id, now).0.inodes.contains_key(
            m.get_or_create_inode(remote_id, now).1,
        ),
        m.get_or_create_inode(remote_id, now).0.find_inode(remote_id) == Some(
            m.get_or_create_inode(remote_id, now).1,
        ),
{
    if m.knows(remote_id) {
        lemma_known(m, remote_id);
    } else {
        lemma_insert_inode_wf(m, m.next_inode, remote_id, now);
        let n = m.insert_inode(m.next_inode, remote_id, now);
        lemma_inode_of(n, m.next_inode);
    }
}

/// Writing an attribute row keeps the rules.
pub proof fn lemma_upsert_attrs_wf(
    m: StoreModel,
    inode: u64,
    size: i64,
    mtime: i64,
    mode: i64,
    is_dir: bool,
    mime_type: Option<Seq<char>>,
)
    requires
        m.wf(),
        m.inodes.contains_key(inode),
        is_dir ==> !m.has_chunks(inode),
    ensures
        m.upsert_attrs(inode, size, mtime, mode, is_dir, mime_type).wf(),
{
    let n = m.upsert_attrs(inode, size, mtime, mode, is_dir, mime_type);
    assert forall|k: (u64, u64)| #[trigger] n.chunks.contains_key(k) implies !(
    n.attrs.contains_key(k.0) && n.attrs[k.0].is_dir) by {
        if k.0 == inode {
            assert(m.chunks.contains_key((inode, k.1)));
        }
    }
}

/// Changing size, times or mode keeps the rules.
pub proof fn lemma_patch_attrs_wf(
    m: StoreModel,
    inode: u64,
    size: Option<i64>,
    mtime: Option<i64>,
    mode: Option<i64>,
)
    requires
        m.wf(),
    ensures
        m.patch_attrs(inode, size, mtime, mode).wf(),
{
}

/// Linking a child keeps the rules.
pub proof fn lemma_upsert_dentry_wf(m: StoreModel, parent: u64, child: u64, name: Seq<char>)
    requires
        m.wf(),
        m.inodes.contains_key(parent),
        m.inodes.contains_key(child),
        !m.tombstones.contains_key(child),
    ensures
        m.upsert_dentry(parent, child, name).wf(),
        m.upsert_dentry(parent, child, name).lookup(parent, name) == Some(child),
{
    lemma_dentries_without(m, child);
    let n = m.upsert_dentry(parent, child, name);
    let w = m.dentries_without(child);
    assert forall|a: (u64, Seq<char>), b: (u64, Seq<char>)|
        n.dentries.contains_key(a) && n.dentries.contains_key(b) && (#[trigger] n.dentries[a]) == (
        #[trigger] n.dentries[b]) implies a == b by {
        if a != (parent, name) && b != (parent, name) {
            assert(w.contains_key(a) && w.contains_key(b));
            assert(m.dentries[a] == m.dentries[b]);
        } else if a != (parent, name) {
            assert(w.contains_key(a));
        } else if b != (parent, name) {
            assert(w.contains_key(b));
        }
    }
    assert forall|k: (u64, Seq<char>)| #[trigger] n.dentries.contains_key(k) implies (
    n.inodes.contains_key(k.0) && n.inodes.contains_key(n.dentries[k])
        && !n.tombstones.contains_key(n.dentries[k])) by {
        if k != (parent, name) {
            assert(w.contains_key(k));
        }
    }
}

/// Removing an entry keeps the rules.
pub proof fn lemma_remove_dentry_wf(m: StoreModel, parent: u64, name: Seq<char>)
    requires
        m.wf(),
    ensures
        m.remove_dentry(parent, name).wf(),
{
    let n = m.remove_dentry(parent, name);
    assert forall|a: (u64, Seq<char>), b: (u64, Seq<char>)|
        n.dentries.contains_key(a) && n.dentries.contains_key(b) && (#[trigger] n.dentries[a]) == (
        #[trigger] n.dentries[b]) implies a == b by {
        assert(m.dentries[a] == m.dentries[b]);
    }
}

/// Storing a key/value pair keeps the rules.
pub proof fn lemma_set_sync_meta_wf(m: StoreModel, key: Seq<char>, value: Seq<char>, now: i64)
    requires
        m.wf(),
    ensures
        m.set_sync_meta(key, value, now).wf(),
{
}

/// Changes of a sync row keep the rules.
pub proof fn lemma_sync_wf(m: StoreModel, inode: u64, md5: Seq<char>)
    requires
        m.wf(),
    ensures
        m.inodes.contains_key(inode) ==> m.set_remote_md5(inode, md5).wf(),
        m.inodes.contains_key(inode) ==> m.mark_dirty(inode).wf(),
        m.mark_clean(inode).wf(),
        m.clear_deleted(inode).wf(),
{
}

/// A new remote id that no other inode has keeps the rules.
pub proof fn lemma_set_remote_id_wf(m: StoreModel, inode: u64, remote_id: Seq<char>)
    requires
        m.wf(),
        m.knows(remote_id) ==> m.inode_of(remote_id) == inode,
    ensures
        m.set_remote_id(inode, remote_id).wf(),
{
    let n = m.set_remote_id(inode, remote_id);
    if m.inodes.contains_key(inode) {
        assert forall|i: u64, j: u64|
            n.inodes.contains_key(i) && n.inodes.contains_key(j) && (
            #[trigger] n.inodes[i]).remote_id == (#[trigger] n.inodes[j]).remote_id implies i
            == j by {
            if i != inode && j != inode {
                assert(m.inodes[i].remote_id == m.inodes[j].remote_id);
            } else if i != inode {
                assert(m.inodes.contains_key(i) && m.inodes[i].remote_id == remote_id);
                lemma_inode_of(m, i);
            } else if j != inode {
                assert(m.inodes.contains_key(j) && m.inodes[j].remote_id == remote_id);
                lemma_inode_of(m, j);
            }
        }
    }
}

/// Soft-deleting an inode keeps the rules.
pub proof fn lemma_soft_delete_inode_wf(m: StoreModel, child: u64, now: i64)
    requires
        m.wf(),
        m.inodes.contains_key(child),
    ensures
        m.soft_delete_inode(child, now).wf(),
        !m.soft_delete_inode(child, now).is_linked(child),
{
    let n = m.soft_delete_inode(child, now);
    lemma_dentries_without(m, child);
    if m.is_linked(child) {
        lemma_linked(m, child);
        let k = m.link_of(child);
        assert(n.dentries == m.dentries_without(child));
        assert forall|a: (u64, Seq<char>), b: (u64, Seq<char>)|
            n.dentries.contains_key(a) && n.dentries.contains_key(b) && (
            #[trigger] n.dentries[a]) == (#[trigger] n.dentries[b]) implies a == b by {
            assert(m.dentries[a] == m.dentries[b]);
        }
    }
    if n.is_linked(child) {
        lemma_linked(n, child);
        let k = n.link_of(child);
        assert(m.dentries.contains_key(k) && m.dentries[k] == child);
        if m.is_linked(child) {
            assert(m.dentries_without(child).contains_key(k));
        }
    }
}

/// Soft-deleting by remote id keeps the rules.
pub proof fn lemma_soft_delete_wf(m: StoreModel, remote_id: Seq<char>, now: i64)
    requires
        m.wf(),
    ensures
        m.soft_delete(remote_id, now).wf(),
{
    if m.knows(remote_id) {
        lemma_known(m, remote_id);
        lemma_soft_delete_inode_wf(m, m.inode_of(remote_id), now);
    }
}

/// Restoring an inode keeps the rules.
pub proof fn lemma_restore_inode_wf(m: StoreModel, child: u64)
    requires
        m.wf(),
    ensures
        m.restore_inode(child).wf(),
        !m.restore_inode(child).tombstones.contains_key(child),
{
    let n = m.restore_inode(child);
    if m.tombstones.contains_key(child) {
        let t = m.tombstones[child];
        let key = (t.parent, t.name);
        assert forall|a: (u64, Seq<char>), b: (u64, Seq<char>)|
            n.dentries.contains_key(a) && n.dentries.contains_key(b) && (
            #[trigger] n.dentries[a]) == (#[trigger] n.dentries[b]) implies a == b by {
            if a != key && b != key {
                assert(m.dentries[a] == m.dentries[b]);
            } else if a != key {
                assert(m.dentries.contains_key(a));
                assert(!m.tombstones.contains_key(m.dentries[a]));
            } else if b != key {
                assert(m.dentries.contains_key(b));
                assert(!m.tombstones.contains_key(m.dentries[b]));
            }
        }
        assert forall|k: (u64, Seq<char>)| #[trigger] n.dentries.contains_key(k) implies (
        n.inodes.contains_key(k.0) && n.inodes.contains_key(n.dentries[k])
            && !n.tombstones.contains_key(n.dentries[k])) by {
            if k != key {
                assert(m.dentries.contains_key(k));
            }
        }
    }
}

/// Restoring by remote id keeps the rules.
pub proof fn lemma_restore_wf(m: StoreModel, remote_id: Seq<char>)
    requires
        m.wf(),
    ensures
        m.restore(remote_id).wf(),
{
    if m.knows(remote_id) {
        lemma_restore_inode_wf(m, m.inode_of(remote_id));
    }
}

/// Removing a set of inodes with all the rows that name them keeps the rules.
pub proof fn lemma_without_inodes_wf(m: StoreModel, gone: Set<u64>)
    requires
        m.wf(),
    ensures
        m.without_inodes(gone).wf(),
{
    let n = m.without_inodes(gone);
    assert forall|i: u64, j: u64|
        n.inodes.contains_key(i) && n.inodes.contains_key(j) && (
        #[trigger] n.inodes[i]).remote_id == (#[trigger] n.inodes[j]).remote_id implies i == j by {
        assert(m.inodes[i].remote_id == m.inodes[j].remote_id);
    }
    assert forall|a: (u64, Seq<char>), b: (u64, Seq<char>)|
        n.dentries.contains_key(a) && n.dentries.contains_key(b) && (#[trigger] n.dentries[a]) == (
        #[trigger] n.dentries[b]) implies a == b by {
        assert(m.dentries[a] == m.dentries[b]);
    }
    assert forall|k: (u64, Seq<char>)| #[trigger] n.dentries.contains_key(k) implies (
    n.inodes.contains_key(k.0) && n.inodes.contains_key(n.dentries[k])
        && !n.tombstones.contains_key(n.dentries[k])) by {
        assert(m.dentries.contains_key(k));
    }
    assert forall|k: (u64, u64)| #[trigger] n.chunks.contains_key(k) implies (
    n.inodes.contains_key(k.0) && !(n.attrs.contains_key(k.0) && n.attrs[k.0].is_dir) && k.1
        <= n.chunks[k]) by {
        assert(m.chunks.contains_key(k));
    }
    assert forall|c: u64| #[trigger] n.tombstones.contains_key(c) implies n.inodes.contains_key(c)
        && n.inodes.contains_key(n.tombstones[c].parent) by {
        assert(m.tombstones.contains_key(c));
    }
}

/// Purging expired tombstones keeps the rules.
pub proof fn lemma_purge_wf(m: StoreModel, grace_days: i64, now: i64)
    requires
        m.wf(),
    ensures
        m.purge(grace_days, now).wf(),
{
    lemma_without_inodes_wf(m, m.expired_set(grace_days, now));
}

/// Recording a cached range of a file keeps the rules.
pub proof fn lemma_add_chunk_wf(m: StoreModel, inode: u64, start: u64, end: u64)
    requires
        m.wf(),
        m.inodes.contains_key(inode),
        start <= end,
        !(m.attrs.contains_key(inode) && m.attrs[inode].is_dir),
    ensures
        m.add_chunk(inode, start, end).wf(),
{
}

/// Forgetting the chunks of an inode keeps the rules.
pub proof fn lemma_clear_chunks_wf(m: StoreModel, inode: u64)
    requires
        m.wf(),
    ensures
        m.clear_chunks(inode).wf(),
        !m.clear_chunks(inode).has_chunks(inode),
{
    let n = m.clear_chunks(inode);
    assert forall|k: (u64, u64)| #[trigger] n.chunks.contains_key(k) implies (
    n.inodes.contains_key(k.0) && !(n.attrs.contains_key(k.0) && n.attrs[k.0].is_dir) && k.1
        <= n.chunks[k]) by {
        assert(m.chunks.contains_key(k));
    }
}

/// Loading saved rows keeps the rules.
pub proof fn lemma_load_wf(
    m: StoreModel,
    inode: u64,
    parent: u64,
    name: Seq<char>,
    stamp: i64,
    row: crate::db::model::SyncModel,
    next: u64,
)
    requires
        m.wf(),
    ensures
        m.set_ctime(inode, stamp).wf(),
        m.reserve_inodes(next).wf(),
        m.inodes.contains_key(inode) ==> m.put_sync(inode, row).wf(),
        m.inodes.contains_key(inode) && m.inodes.contains_key(parent) && !m.is_linked(inode)
            ==> m.put_tombstone(inode, parent, name, stamp).wf(),
{
    if m.inodes.contains_key(inode) && m.inodes.contains_key(parent) && !m.is_linked(inode) {
        let n = m.put_tombstone(inode, parent, name, stamp);
        assert forall|k: (u64, Seq<char>)| #[trigger]
            n.dentries.contains_key(k) implies !n.tombstones.contains_key(n.dentries[k]) by {
            if m.dentries[k] == inode {
                assert(m.is_linked(inode));
            }
        }
    }
}

} // verus!
