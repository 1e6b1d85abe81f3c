//! What holds of every sound store, and of what its operations do one after
//! another.
use vstd::prelude::*;
use crate::db::model::StoreModel;
use crate::db::rules::{
    lemma_inode_of, lemma_known, lemma_link_of, lemma_linked, lemma_restore_inode_wf,
    lemma_soft_delete_inode_wf,
};
use crate::ranges::{covered_by, covers};

verus! {

/// The empty store keeps the rules.
pub proof fn law_empty_store_keeps_the_rules()
    ensures
        StoreModel::empty().wf(),
{
}

/// Every inode that has attributes, sync state or a cached chunk, and every
/// inode that a directory entry names as parent or as child, has a row in
/// the inode table.
pub proof fn law_inode_rows_exist(m: StoreModel, inode: u64)
    requires
        m.wf(),
        m.attrs.contains_key(inode) || m.sync.contains_key(inode) || m.has_chunks(inode) || (
        exists|k: (u64, Seq<char>)| #[trigger]
            m.dentries.contains_key(k) && (k.0 == inode || m.dentries[k] == inode)),
    ensures
        m.inodes.contains_key(inode),
{
    if m.has_chunks(inode) {
        let start = choose|start: u64| #[trigger] m.chunks.contains_key((inode, start));
        assert(m.chunks.contains_key((inode, start)));
    }
}

/// A directory has no cached chunk.
pub proof fn law_directories_have_no_chunks(m: StoreModel, inode: u64)
    requires
        m.wf(),
        m.attrs.contains_key(inode),
        m.attrs[inode].is_dir,
    ensures
        !m.has_chunks(inode),
        forall|x: int| !m.cached(inode, x),
{
    if m.has_chunks(inode) {
        let start = choose|start: u64| #[trigger] m.chunks.contains_key((inode, start));
        assert(m.chunks.contains_key((inode, start)));
    }
    assert forall|x: int| !m.cached(inode, x) by {
        if m.cached(inode, x) {
            let start = choose|start: u64| #[trigger]
                m.chunks.contains_key((inode, start)) && start <= x <= m.chunks[(inode, start)];
            assert(m.chunks.contains_key((inode, start)));
        }
    }
}

/// An inode stands under at most one name, and is never visible and
/// soft-deleted at once.
pub proof fn law_one_place_per_inode(m: StoreModel, a: (u64, Seq<char>), b: (u64, Seq<char>))
    requires
        m.wf(),
        m.dentries.contains_key(a),
        m.dentries.contains_key(b),
        m.dentries[a] == m.dentries[b],
    ensures
        a == b,
        !m.tombstones.contains_key(m.dentries[a]),
{
}

/// One of the two operations on tombstones.
pub enum TombstoneOp {
    /// Soft-delete, at the given time.
    SoftDelete(i64),
    /// Restore.
    Restore,
}

/// The store after one operation on the inode with the remote id `remote_id`.
pub open spec fn apply_op(m: StoreModel, remote_id: Seq<char>, op: TombstoneOp) -> StoreModel {
    match op {
        TombstoneOp::SoftDelete(now) => m.soft_delete(remote_id, now),
        TombstoneOp::Restore => m.restore(remote_id),
    }
}

/// The store after the operations `ops`, first to last.
pub open spec fn apply_ops(m: StoreModel, remote_id: Seq<char>, ops: Seq<TombstoneOp>) -> StoreModel
    decreases ops.len(),
{
    if ops.len() == 0 {
        m
    } else {
        apply_op(apply_ops(m, remote_id, ops.drop_last()), remote_id, ops.last())
    }
}

/// The place of an inode: the `(parent, name)` under which it stands, or
/// under which it stood when it was soft-deleted.
pub open spec fn home(m: StoreModel, child: u64) -> Option<(u64, Seq<char>)> {
    if m.is_linked(child) {
        Some(m.link_of(child))
    } else if m.tombstones.contains_key(child) {
        Some((m.tombstones[child].parent, m.tombstones[child].name))
    } else {
        None
    }
}

/// One operation keeps the rules, the inode's remote id and its place; after
/// a soft-delete the inode is not visible, after a restore it is visible iff
/// it has a place.
pub proof fn lemma_apply_op(m: StoreModel, remote_id: Seq<char>, op: TombstoneOp)
    requires
        m.wf(),
        m.knows(remote_id),
    ensures
        apply_op(m, remote_id, op).wf(),
        apply_op(m, remote_id, op).knows(remote_id),
        apply_op(m, remote_id, op).inode_of(remote_id) == m.inode_of(remote_id),
        home(apply_op(m, remote_id, op), m.inode_of(remote_id)) == home(
            m,
            m.inode_of(remote_id),
        ),
        op is SoftDelete ==> !apply_op(m, remote_id, op).is_linked(m.inode_of(remote_id)),
        op is Restore ==> (apply_op(m, remote_id, op).is_linked(m.inode_of(remote_id)) <==> home(
            m,
            m.inode_of(remote_id),
        ) is Some),
        op is Restore ==> !apply_op(m, remote_id, op).tombstones.contains_key(
            m.inode_of(remote_id),
        ),
{
    let c = m.inode_of(remote_id);
    let n = apply_op(m, remote_id, op);
    lemma_known(m, remote_id);
    assert(n.inodes == m.inodes);
    assert(n.inodes.contains_key(c) && n.inodes[c].remote_id == remote_id);
    lemma_inode_of(n, c);
    match op {
        TombstoneOp::SoftDelete(now) => {
            lemma_soft_delete_inode_wf(m, c, now);
            if m.is_linked(c) {
                lemma_linked(m, c);
            }
        },
        TombstoneOp::Restore => {
            lemma_restore_inode_wf(m, c);
            if m.tombstones.contains_key(c) {
                let t = m.tombstones[c];
                assert(n.dentries.contains_key((t.parent, t.name)));
                lemma_link_of(n, (t.parent, t.name));
                if m.is_linked(c) {
                    lemma_linked(m, c);
                }
            } else {
                assert(n.dentries == m.dentries);
                if m.is_linked(c) {
                    lemma_linked(m, c);
                    lemma_link_of(n, m.link_of(c));
                }
                if n.is_linked(c) {
                    lemma_linked(n, c);
                    lemma_link_of(m, n.link_of(c));
                }
            }
        },
    }
}

/// A sequence of operations keeps the rules, the inode's remote id and its
/// place.
pub proof fn lemma_apply_ops(m: StoreModel, remote_id: Seq<char>, ops: Seq<TombstoneOp>)
    requires
        m.wf(),
        m.knows(remote_id),
    ensures
        apply_ops(m, remote_id, ops).wf(),
        apply_ops(m, remote_id, ops).knows(remote_id),
        apply_ops(m, remote_id, ops).inode_of(remote_id) == m.inode_of(remote_id),
        home(apply_ops(m, remote_id, ops), m.inode_of(remote_id)) == home(
            m,
            m.inode_of(remote_id),
        ),
    decreases ops.len(),
{
    if ops.len() > 0 {
        lemma_apply_ops(m, remote_id, ops.drop_last());
        lemma_apply_op(apply_ops(m, remote_id, ops.drop_last()), remote_id, ops.last());
    }
}

/// After any sequence of soft-deletes and restores of one inode, the
/// directory entry of that inode is as the last operation alone would leave
/// it: gone after a soft-delete; after a restore, back at the inode's place,
/// with no tombstone left.
pub proof fn law_last_operation_decides(m: StoreModel, remote_id: Seq<char>, ops: Seq<TombstoneOp>)
    requires
        m.wf(),
        m.knows(remote_id),
        ops.len() > 0,
    ensures
        ({
            let c = m.inode_of(remote_id);
            let end = apply_ops(m, remote_id, ops);
            let alone = apply_op(m, remote_id, ops.last());
            &&& end.wf()
            &&& end.is_linked(c) == alone.is_linked(c)
            &&& end.is_linked(c) ==> end.link_of(c) == alone.link_of(c)
            &&& ops.last() is SoftDelete ==> !end.is_linked(c)
            &&& ops.last() is Restore ==> !end.tombstones.contains_key(c) && (end.is_linked(c)
                <==> home(m, c) is Some)
        }),
{
    let c = m.inode_of(remote_id);
    let mid = apply_ops(m, remote_id, ops.drop_last());
    lemma_apply_ops(m, remote_id, ops.drop_last());
    lemma_apply_op(mid, remote_id, ops.last());
    lemma_apply_op(m, remote_id, ops.last());
}

/// A restore right after a soft-delete puts the inode back where it stood.
pub proof fn law_restore_undoes_soft_delete(m: StoreModel, remote_id: Seq<char>, now: i64)
    requires
        m.wf(),
        m.knows(remote_id),
        m.is_linked(m.inode_of(remote_id)),
    ensures
        m.soft_delete(remote_id, now).restore(remote_id).dentries == m.dentries,
        m.soft_delete(remote_id, now).restore(remote_id).tombstones == m.tombstones,
{
    let c = m.inode_of(remote_id);
    let d = m.soft_delete(remote_id, now);
    lemma_known(m, remote_id);
    lemma_linked(m, c);
    assert(d.inodes.contains_key(c) && d.inodes[c].remote_id == remote_id);
    lemma_soft_delete_inode_wf(m, c, now);
    lemma_inode_of(d, c);
    let r = d.restore(remote_id);
    assert(r.dentries =~= m.dentries);
    assert(r.tombstones =~= m.tombstones);
}

/// After a purge, no table holds a row for an inode whose tombstone had
/// expired.
pub proof fn law_purged_inodes_are_gone(m: StoreModel, grace_days: i64, now: i64, inode: u64)
    requires
        m.wf(),
        m.expired(inode, grace_days, now),
    ensures
        ({
            let after = m.purge(grace_days, now);
            &&& !after.inodes.contains_key(inode)
            &&& !after.attrs.contains_key(inode)
            &&& !after.sync.contains_key(inode)
            &&& !after.tombstones.contains_key(inode)
            &&& !after.has_chunks(inode)
            &&& !after.is_linked(inode)
            &&& forall|k: (u64, Seq<char>)| #[trigger] after.dentries.contains_key(k) ==> k.0 != inode
        }),
{
    let after = m.purge(grace_days, now);
    assert(m.expired_set(grace_days, now).contains(inode));
    if after.has_chunks(inode) {
        let start = choose|start: u64| #[trigger] after.chunks.contains_key((inode, start));
        assert(after.chunks.contains_key((inode, start)));
    }
    if after.is_linked(inode) {
        lemma_linked(after, inode);
    }
}

/// A purge leaves every other inode as it was.
pub proof fn law_purge_keeps_the_rest(m: StoreModel, grace_days: i64, now: i64, inode: u64)
    requires
        m.wf(),
        m.inodes.contains_key(inode),
        !m.expired(inode, grace_days, now),
    ensures
        m.purge(grace_days, now).inodes.contains_key(inode),
        m.purge(grace_days, now).inodes[inode] == m.inodes[inode],
        m.attrs.contains_key(inode) ==> m.purge(grace_days, now).attrs.contains_key(inode)
            && m.purge(grace_days, now).attrs[inode] == m.attrs[inode],
{
}

/// The gaps of an interval hold exactly the offsets that no chunk holds:
/// an offset of `[start, end]` is cached or missing, never both.
pub proof fn law_missing_is_the_complement(
    m: StoreModel,
    inode: u64,
    start: u64,
    end: u64,
    out: Seq<(u64, u64)>,
    x: int,
)
    requires
        m.is_missing(inode, start, end, out),
    ensures
        start <= x <= end ==> (covered_by(out, x) <==> !m.cached(inode, x)),
        covered_by(out, x) ==> start <= x <= end,
{
    if covered_by(out, x) {
        let i = choose|i: int| 0 <= i < out.len() && covers(#[trigger] out[i], x);
        assert(start <= out[i].0 && out[i].1 <= end);
    }
}

/// Recording a chunk never uncovers an offset.
pub proof fn law_chunks_only_grow(m: StoreModel, inode: u64, start: u64, end: u64, other: u64, x: int)
    requires
        m.cached(other, x),
    ensures
        m.add_chunk(inode, start, end).cached(other, x),
{
    let n = m.add_chunk(inode, start, end);
    let s = choose|s: u64| #[trigger]
        m.chunks.contains_key((other, s)) && s <= x <= m.chunks[(other, s)];
    assert(n.chunks.contains_key((other, s)) && s <= x <= n.chunks[(other, s)]);
}

/// Once the bytes `[start, end]` of a file are recorded as cached, nothing
/// of `[start, end]` is missing.
pub proof fn law_cached_range_is_not_missing(
    m: StoreModel,
    inode: u64,
    start: u64,
    end: u64,
    out: Seq<(u64, u64)>,
)
    requires
        m.add_chunk(inode, start, end).is_missing(inode, start, end, out),
    ensures
        out.len() == 0,
{
    let n = m.add_chunk(inode, start, end);
    if out.len() > 0 {
        let x = out[0].0 as int;
        assert(covers(out[0], x));
        assert(covered_by(out, x));
        assert(start <= x <= end);
        assert(n.chunks.contains_key((inode, start)) && start <= x <= n.chunks[(inode, start)]);
        assert(n.cached(inode, x));
    }
}

/// The names come in ascending order.
pub open spec fn ascending(names: Seq<Seq<char>>) -> bool {
    forall|i: int, j: int|
        0 <= i < j < names.len() ==> crate::text::lex_lt(#[trigger] names[i], #[trigger] names[j])
}

/// Two ascending lists of the same names are equal.
pub proof fn lemma_ascending_unique(a: Seq<Seq<char>>, b: Seq<Seq<char>>)
    requires
        ascending(a),
        ascending(b),
        forall|n: Seq<char>| a.contains(n) <==> b.contains(n),
    ensures
        a == b,
    decreases a.len(),
{
    if a.len() == 0 {
        if b.len() > 0 {
            assert(b.contains(b[0]));
            assert(a.contains(b[0]));
        }
        assert(a =~= b);
    } else if b.len() == 0 {
        assert(a.contains(a[0]));
        assert(b.contains(a[0]));
    } else {
        let x = a.last();
        let y = b.last();
        assert(a.contains(x)) by {
            assert(a[a.len() - 1] == x);
        }
        assert(b.contains(y)) by {
            assert(b[b.len() - 1] == y);
        }
        let j = choose|j: int| 0 <= j < b.len() && b[j] == x;
        let i = choose|i: int| 0 <= i < a.len() && a[i] == y;
        if x != y {
            assert(j < b.len() - 1);
            assert(crate::text::lex_lt(b[j], b[b.len() - 1]));
            assert(i < a.len() - 1);
            assert(crate::text::lex_lt(a[i], a[a.len() - 1]));
            crate::text::lemma_lex_trans(x, y, x);
            crate::text::lemma_lex_irreflexive(x);
        }
        let a0 = a.drop_last();
        let b0 = b.drop_last();
        assert forall|n: Seq<char>| a0.contains(n) <==> b0.contains(n) by {
            if a0.contains(n) {
                let k = choose|k: int| 0 <= k < a0.len() && a0[k] == n;
                assert(a[k] == n);
                assert(crate::text::lex_lt(a[k], a[a.len() - 1]));
                assert(a.contains(n));
                let l = choose|l: int| 0 <= l < b.len() && b[l] == n;
                if l == b.len() - 1 {
                    crate::text::lemma_lex_irreflexive(x);
                }
                assert(b0[l] == n);
            }
            if b0.contains(n) {
                let k = choose|k: int| 0 <= k < b0.len() && b0[k] == n;
                assert(b[k] == n);
                assert(crate::text::lex_lt(b[k], b[b.len() - 1]));
                assert(b.contains(n));
                let l = choose|l: int| 0 <= l < a.len() && a[l] == n;
                if l == a.len() - 1 {
                    crate::text::lemma_lex_irreflexive(x);
                }
                assert(a0[l] == n);
            }
        }
        assert forall|p: int, q: int| 0 <= p < q < a0.len() implies crate::text::lex_lt(
            #[trigger] a0[p],
            #[trigger] a0[q],
        ) by {
            assert(a0[p] == a[p] && a0[q] == a[q]);
        }
        assert forall|p: int, q: int| 0 <= p < q < b0.len() implies crate::text::lex_lt(
            #[trigger] b0[p],
            #[trigger] b0[q],
        ) by {
            assert(b0[p] == b[p] && b0[q] == b[q]);
        }
        lemma_ascending_unique(a0, b0);
        assert(a =~= a0.push(x));
        assert(b =~= b0.push(y));
    }
}

/// A directory has one listing: two lists that both are listings of it are
/// equal.
pub proof fn law_listing_is_unique(
    m: StoreModel,
    parent: u64,
    a: Seq<(u64, Seq<char>, bool, Option<Seq<char>>, Seq<char>)>,
    b: Seq<(u64, Seq<char>, bool, Option<Seq<char>>, Seq<char>)>,
)
    requires
        m.is_listing_extended(parent, a),
        m.is_listing_extended(parent, b),
    ensures
        a == b,
{
    let na = Seq::new(a.len(), |i: int| a[i].1);
    let nb = Seq::new(b.len(), |i: int| b[i].1);
    assert forall|n: Seq<char>| na.contains(n) <==> nb.contains(n) by {
        if na.contains(n) {
            let k = choose|k: int| 0 <= k < na.len() && na[k] == n;
            assert(m.listed(parent, a[k].1));
            let l = choose|l: int| 0 <= l < b.len() && (#[trigger] b[l]).1 == n;
            assert(nb[l] == n);
        }
        if nb.contains(n) {
            let k = choose|k: int| 0 <= k < nb.len() && nb[k] == n;
            assert(m.listed(parent, b[k].1));
            let l = choose|l: int| 0 <= l < a.len() && (#[trigger] a[l]).1 == n;
            assert(na[l] == n);
        }
    }
    assert forall|i: int, j: int| 0 <= i < j < na.len() implies crate::text::lex_lt(
        #[trigger] na[i],
        #[trigger] na[j],
    ) by {
        assert(crate::text::lex_lt(a[i].1, a[j].1));
    }
    assert forall|i: int, j: int| 0 <= i < j < nb.len() implies crate::text::lex_lt(
        #[trigger] nb[i],
        #[trigger] nb[j],
    ) by {
        assert(crate::text::lex_lt(b[i].1, b[j].1));
    }
    lemma_ascending_unique(na, nb);
    assert(na.len() == a.len() && nb.len() == b.len());
    assert(a.len() == b.len());
    assert forall|i: int| 0 <= i < a.len() implies a[i] == b[i] by {
        assert(na[i] == nb[i]);
        assert(a[i] == m.child_entry(parent, a[i].1));
        assert(b[i] == m.child_entry(parent, b[i].1));
    }
    assert(a =~= b);
}

/// A directory has one short listing too.
pub proof fn law_short_listing_is_unique(
    m: StoreModel,
    parent: u64,
    a: Seq<(u64, Seq<char>, bool)>,
    b: Seq<(u64, Seq<char>, bool)>,
)
    requires
        m.is_listing(parent, a),
        m.is_listing(parent, b),
    ensures
        a == b,
{
    let na = Seq::new(a.len(), |i: int| a[i].1);
    let nb = Seq::new(b.len(), |i: int| b[i].1);
    assert forall|n: Seq<char>| na.contains(n) <==> nb.contains(n) by {
        if na.contains(n) {
            let k = choose|k: int| 0 <= k < na.len() && na[k] == n;
            assert(m.listed(parent, a[k].1));
            let l = choose|l: int| 0 <= l < b.len() && (#[trigger] b[l]).1 == n;
            assert(nb[l] == n);
        }
        if nb.contains(n) {
            let k = choose|k: int| 0 <= k < nb.len() && nb[k] == n;
            assert(m.listed(parent, b[k].1));
            let l = choose|l: int| 0 <= l < a.len() && (#[trigger] a[l]).1 == n;
            assert(na[l] == n);
        }
    }
    assert forall|i: int, j: int| 0 <= i < j < na.len() implies crate::text::lex_lt(
        #[trigger] na[i],
        #[trigger] na[j],
    ) by {
        assert(crate::text::lex_lt(a[i].1, a[j].1));
    }
    assert forall|i: int, j: int| 0 <= i < j < nb.len() implies crate::text::lex_lt(
        #[trigger] nb[i],
        #[trigger] nb[j],
    ) by {
        assert(crate::text::lex_lt(b[i].1, b[j].1));
    }
    lemma_ascending_unique(na, nb);
    assert(na.len() == a.len() && nb.len() == b.len());
    assert(a.len() == b.len());
    assert forall|i: int| 0 <= i < a.len() implies a[i] == b[i] by {
        assert(na[i] == nb[i]);
        assert(m.listed(parent, a[i].1));
        assert(m.listed(parent, b[i].1));
    }
    assert(a =~= b);
}

/// The gaps that the chunks of a file leave in an interval are determined by
/// the chunks: two lists that both are the list of what is missing are equal.
pub proof fn law_missing_is_unique(
    m: StoreModel,
    inode: u64,
    start: u64,
    end: u64,
    a: Seq<(u64, u64)>,
    b: Seq<(u64, u64)>,
)
    requires
        m.is_missing(inode, start, end, a),
        m.is_missing(inode, start, end, b),
    ensures
        a == b,
{
    let covered = |x: int| m.cached(inode, x);
    assert(crate::ranges::is_gap_list_of(a, covered, start, end)) by {
        assert forall|x: int| start <= x <= end implies (covered_by(a, x) <==> !covered(x)) by {
            assert(covered(x) == m.cached(inode, x));
        }
    }
    assert(crate::ranges::is_gap_list_of(b, covered, start, end)) by {
        assert forall|x: int| start <= x <= end implies (covered_by(b, x) <==> !covered(x)) by {
            assert(covered(x) == m.cached(inode, x));
        }
    }
    crate::ranges::lemma_gaps_unique(a, b, covered, start, end);
}

/// Installing the root a second time changes nothing.
pub proof fn law_ensure_root_runs_once(m: StoreModel, first: i64, second: i64)
    requires
        m.wf(),
        m.root_installable(),
    ensures
        m.ensure_root(first).root_installable(),
        m.ensure_root(first).ensure_root(second) == m.ensure_root(first),
{
    let n = m.ensure_root(first);
    crate::db::rules::lemma_ensure_root_wf(m, first);
    assert(n.inodes.contains_key(crate::db::model::ROOT_INODE));
    assert(n.attrs.contains_key(crate::db::model::ROOT_INODE));
    if n.knows(crate::db::model::root_id()) {
        lemma_inode_of(n, crate::db::model::ROOT_INODE);
    }
}

/// The operations that the synchronizer repeats after a failure do nothing
/// the second time: writing the same attributes, linking the same child,
/// marking clean, forgetting a deletion and purging.
pub proof fn law_repeated_operations_change_nothing(
    m: StoreModel,
    inode: u64,
    parent: u64,
    name: Seq<char>,
    size: i64,
    mtime: i64,
    mode: i64,
    is_dir: bool,
    mime_type: Option<Seq<char>>,
    grace_days: i64,
    now: i64,
)
    requires
        m.wf(),
    ensures
        m.upsert_attrs(inode, size, mtime, mode, is_dir, mime_type).upsert_attrs(
            inode,
            size,
            mtime,
            mode,
            is_dir,
            mime_type,
        ) == m.upsert_attrs(inode, size, mtime, mode, is_dir, mime_type),
        m.upsert_dentry(parent, inode, name).upsert_dentry(parent, inode, name) == m.upsert_dentry(
            parent,
            inode,
            name,
        ),
        m.mark_clean(inode).mark_clean(inode) == m.mark_clean(inode),
        m.mark_dirty(inode).mark_dirty(inode) == m.mark_dirty(inode),
        m.clear_deleted(inode).clear_deleted(inode) == m.clear_deleted(inode),
        m.purge(grace_days, now).purge(grace_days, now) == m.purge(grace_days, now),
{
    let a = m.upsert_attrs(inode, size, mtime, mode, is_dir, mime_type);
    assert(a.upsert_attrs(inode, size, mtime, mode, is_dir, mime_type).attrs =~= a.attrs);
    let d = m.upsert_dentry(parent, inode, name);
    crate::db::rules::lemma_dentries_without(m, inode);
    assert(d.dentries.contains_key((parent, name)) && d.dentries[(parent, name)] == inode);
    assert forall|k: (u64, Seq<char>)|
        d.dentries.contains_key(k) && #[trigger] d.dentries[k] == inode implies k == (
        parent,
        name,
    ) by {
        if k != (parent, name) {
            assert(m.dentries_without(inode).contains_key(k));
        }
    }
    assert(d.is_linked(inode));
    assert(d.link_of(inode) == (parent, name));
    assert(d.upsert_dentry(parent, inode, name).dentries =~= d.dentries);
    assert(m.mark_clean(inode).mark_clean(inode).sync =~= m.mark_clean(inode).sync);
    assert(m.mark_dirty(inode).mark_dirty(inode).sync =~= m.mark_dirty(inode).sync);
    assert(m.clear_deleted(inode).clear_deleted(inode).sync =~= m.clear_deleted(inode).sync);
    let p = m.purge(grace_days, now);
    let gone = m.expired_set(grace_days, now);
    let again = p.expired_set(grace_days, now);
    assert forall|c: u64| again.contains(c) implies false by {
        assert(p.tombstones.contains_key(c));
        assert(m.expired(c, grace_days, now));
        assert(gone.contains(c));
    }
    assert(again =~= Set::<u64>::empty());
    let q = p.purge(grace_days, now);
    assert(q.inodes =~= p.inodes);
    assert(q.attrs =~= p.attrs);
    assert(q.sync =~= p.sync);
    assert(q.dentries =~= p.dentries);
    assert(q.tombstones =~= p.tombstones);
    assert(q.chunks =~= p.chunks);
    assert(q =~= p);
}

/// A soft-delete or a restore that is repeated changes nothing the second
/// time.
pub proof fn law_repeated_tombstone_operations(m: StoreModel, remote_id: Seq<char>, now: i64)
    requires
        m.wf(),
    ensures
        m.soft_delete(remote_id, now).soft_delete(remote_id, now) == m.soft_delete(remote_id, now),
        m.restore(remote_id).restore(remote_id) == m.restore(remote_id),
{
    if m.knows(remote_id) {
        let c = m.inode_of(remote_id);
        lemma_known(m, remote_id);
        let d = m.soft_delete(remote_id, now);
        lemma_soft_delete_inode_wf(m, c, now);
        assert(d.inodes == m.inodes);
        lemma_inode_of(d, c);
        let dd = d.soft_delete(remote_id, now);
        assert(dd.sync =~= d.sync);
        assert(dd =~= d);
        let r = m.restore(remote_id);
        lemma_restore_inode_wf(m, c);
        assert(r.inodes == m.inodes);
        lemma_inode_of(r, c);
        let rr = r.restore(remote_id);
        assert(rr.sync =~= r.sync);
        assert(rr =~= r);
    }
}

/// Recording a chunk adds exactly its bytes to what is cached.
pub proof fn law_chunk_adds_its_bytes(
    m: StoreModel,
    inode: u64,
    start: u64,
    end: u64,
    other: u64,
    x: int,
)
    requires
        m.chunks_well_formed(),
        start <= end,
    ensures
        m.add_chunk(inode, start, end).cached(other, x) <==> m.cached(other, x) || (other == inode
            && start <= x <= end),
{
    let n = m.add_chunk(inode, start, end);
    if m.cached(other, x) {
        law_chunks_only_grow(m, inode, start, end, other, x);
    }
    if other == inode && start <= x <= end {
        assert(n.chunks.contains_key((inode, start)) && start <= x <= n.chunks[(inode, start)]);
    }
    if n.cached(other, x) {
        let s = choose|s: u64| #[trigger]
            n.chunks.contains_key((other, s)) && s <= x <= n.chunks[(other, s)];
        if (other, s) == (inode, start) {
            if m.chunks.contains_key((inode, start)) && m.chunks[(inode, start)] > end {
                assert(m.chunks.contains_key((other, s)) && s <= x <= m.chunks[(other, s)]);
            }
        } else {
            assert(m.chunks.contains_key((other, s)) && s <= x <= m.chunks[(other, s)]);
        }
    }
}

/// Chunks that are recorded in another order leave the same store: a fetch
/// ahead and a read that record their chunks at the same time cannot
/// disturb each other.
pub proof fn law_chunks_commute(m: StoreModel, a: (u64, u64, u64), b: (u64, u64, u64))
    ensures
        m.add_chunk(a.0, a.1, a.2).add_chunk(b.0, b.1, b.2) == m.add_chunk(b.0, b.1, b.2).add_chunk(
            a.0,
            a.1,
            a.2,
        ),
{
    let ab = m.add_chunk(a.0, a.1, a.2).add_chunk(b.0, b.1, b.2);
    let ba = m.add_chunk(b.0, b.1, b.2).add_chunk(a.0, a.1, a.2);
    assert(ab.chunks =~= ba.chunks);
    assert(ab =~= ba);
}

} // verus!
