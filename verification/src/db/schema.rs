//! The migrations of the persistent store: which steps bring a store of an
//! earlier layout to the layout of today, and how the rows of the tombstone
//! table move from their old primary key to the new one.
use vstd::prelude::*;
use vstd::string::*;

verus! {

/// The primary key of the tombstone table.
#[derive(Debug, Clone, Copy, PartialEq, Eq, Structural)]
pub enum TombstoneKey {
    /// The key of an earlier layout: `(parent_inode, name)`.
    ParentAndName,
    /// The key of today: `child_inode`.
    Child,
}

/// What a look at the persistent store shows of its layout.
#[derive(Debug, Clone, Copy, PartialEq, Eq, Structural)]
pub struct Schema {
    /// The sync table has the column `deleted_at`.
    pub sync_has_deleted_at: bool,
    /// The sync table has the column `remote_md5`.
    pub sync_has_remote_md5: bool,
    /// The index on the rows of the sync table with a `deleted_at` exists.
    pub sync_deleted_index: bool,
    /// The table of cached chunks exists.
    pub has_chunk_table: bool,
    /// The primary key of the tombstone table.
    pub tombstone_key: TombstoneKey,
}

/// A step of the migration.
#[derive(Debug, Clone, Copy, PartialEq, Eq, Structural)]
pub enum MigrationStep {
    /// Add the column `deleted_at` to the sync table.
    AddSyncDeletedAt,
    /// Add the column `remote_md5` to the sync table.
    AddSyncRemoteMd5,
    /// Create the index on the rows of the sync table with a `deleted_at`.
    CreateSyncDeletedIndex,
    /// Create the table of cached chunks.
    CreateChunkTable,
    /// Rebuild the tombstone table with the primary key `child_inode`: the
    /// old rows are moved over, the first one of each child only, and the
    /// index on `deleted_at` is created again.
    RebuildTombstones,
}

/// The layout of today.
pub open spec fn current_schema() -> Schema {
    Schema {
        sync_has_deleted_at: true,
        sync_has_remote_md5: true,
        sync_deleted_index: true,
        has_chunk_table: true,
        tombstone_key: TombstoneKey::Child,
    }
}

/// The layout after a step.
pub open spec fn after_step(schema: Schema, step: MigrationStep) -> Schema {
    match step {
        MigrationStep::AddSyncDeletedAt => Schema { sync_has_deleted_at: true, ..schema },
        MigrationStep::AddSyncRemoteMd5 => Schema { sync_has_remote_md5: true, ..schema },
        MigrationStep::CreateSyncDeletedIndex => Schema { sync_deleted_index: true, ..schema },
        MigrationStep::CreateChunkTable => Schema { has_chunk_table: true, ..schema },
        MigrationStep::RebuildTombstones => Schema { tombstone_key: TombstoneKey::Child, ..schema },
    }
}

/// The layout after a list of steps.
pub open spec fn after_steps(schema: Schema, steps: Seq<MigrationStep>) -> Schema
    decreases steps.len(),
{
    if steps.len() == 0 {
        schema
    } else {
        after_step(after_steps(schema, steps.drop_last()), steps.last())
    }
}

/// The steps that a layout needs, in their order: each one only where the
/// look at the store shows that it is missing.
pub open spec fn migration_plan(schema: Schema) -> Seq<MigrationStep> {
    (if schema.sync_has_deleted_at {
        Seq::<MigrationStep>::empty()
    } else {
        seq![MigrationStep::AddSyncDeletedAt]
    }) + (if schema.sync_has_remote_md5 {
        Seq::<MigrationStep>::empty()
    } else {
        seq![MigrationStep::AddSyncRemoteMd5]
    }) + (if schema.sync_deleted_index {
        Seq::<MigrationStep>::empty()
    } else {
        seq![MigrationStep::CreateSyncDeletedIndex]
    }) + (if schema.has_chunk_table {
        Seq::<MigrationStep>::empty()
    } else {
        seq![MigrationStep::CreateChunkTable]
    }) + (if schema.tombstone_key == TombstoneKey::Child {
        Seq::<MigrationStep>::empty()
    } else {
        seq![MigrationStep::RebuildTombstones]
    })
}

/// The steps that bring a store of the layout `schema` to the layout of
/// today.
pub fn apply_migrations(schema: &Schema) -> (plan: Vec<MigrationStep>)
    ensures
        plan@ == migration_plan(*schema),
        after_steps(*schema, plan@) == current_schema(),
{
    let mut plan: Vec<MigrationStep> = Vec::new();
    if !schema.sync_has_deleted_at {
        let ghost before = plan@;
        plan.push(MigrationStep::AddSyncDeletedAt);
        proof {
            lemma_after_push(*schema, before, MigrationStep::AddSyncDeletedAt);
        }
    }
    if !schema.sync_has_remote_md5 {
        let ghost before = plan@;
        plan.push(MigrationStep::AddSyncRemoteMd5);
        proof {
            lemma_after_push(*schema, before, MigrationStep::AddSyncRemoteMd5);
        }
    }
    if !schema.sync_deleted_index {
        let ghost before = plan@;
        plan.push(MigrationStep::CreateSyncDeletedIndex);
        proof {
            lemma_after_push(*schema, before, MigrationStep::CreateSyncDeletedIndex);
        }
    }
    if !schema.has_chunk_table {
        let ghost before = plan@;
        plan.push(MigrationStep::CreateChunkTable);
        proof {
            lemma_after_push(*schema, before, MigrationStep::CreateChunkTable);
        }
    }
    match schema.tombstone_key {
        TombstoneKey::ParentAndName => {
            let ghost before = plan@;
            plan.push(MigrationStep::RebuildTombstones);
            proof {
                lemma_after_push(*schema, before, MigrationStep::RebuildTombstones);
            }
        },
        TombstoneKey::Child => {},
    }
    proof {
        assert(plan@ =~= migration_plan(*schema));
    }
    plan
}

/// The layout after one more step.
pub proof fn lemma_after_push(schema: Schema, steps: Seq<MigrationStep>, step: MigrationStep)
    ensures
        after_steps(schema, steps.push(step)) == after_step(after_steps(schema, steps), step),
{
    assert(steps.push(step).drop_last() =~= steps);
}

/// A store of the layout of today needs no step: a migration that is run
/// again does nothing.
pub proof fn law_migration_runs_once(schema: Schema)
    ensures
        after_steps(schema, migration_plan(schema)) == current_schema(),
        migration_plan(after_steps(schema, migration_plan(schema))).len() == 0,
        migration_plan(current_schema()) =~= Seq::<MigrationStep>::empty(),
{
    let a = if schema.sync_has_deleted_at {
        Seq::<MigrationStep>::empty()
    } else {
        seq![MigrationStep::AddSyncDeletedAt]
    };
    let b = if schema.sync_has_remote_md5 {
        a
    } else {
        a.push(MigrationStep::AddSyncRemoteMd5)
    };
    let c = if schema.sync_deleted_index {
        b
    } else {
        b.push(MigrationStep::CreateSyncDeletedIndex)
    };
    let d = if schema.has_chunk_table {
        c
    } else {
        c.push(MigrationStep::CreateChunkTable)
    };
    let e = if schema.tombstone_key == TombstoneKey::Child {
        d
    } else {
        d.push(MigrationStep::RebuildTombstones)
    };
    assert(e =~= migration_plan(schema));
    if !schema.sync_has_deleted_at {
        lemma_after_push(schema, Seq::empty(), MigrationStep::AddSyncDeletedAt);
        assert(a =~= Seq::<MigrationStep>::empty().push(MigrationStep::AddSyncDeletedAt));
    }
    if !schema.sync_has_remote_md5 {
        lemma_after_push(schema, a, MigrationStep::AddSyncRemoteMd5);
    }
    if !schema.sync_deleted_index {
        lemma_after_push(schema, b, MigrationStep::CreateSyncDeletedIndex);
    }
    if !schema.has_chunk_table {
        lemma_after_push(schema, c, MigrationStep::CreateChunkTable);
    }
    if schema.tombstone_key != TombstoneKey::Child {
        lemma_after_push(schema, d, MigrationStep::RebuildTombstones);
    }
}

/// A row of the tombstone table.
#[derive(Debug)]
pub struct TombstoneRecord {
    pub parent_inode: u64,
    pub child_inode: u64,
    pub name: String,
    pub deleted_at: i64,
}

/// One of the first `upto` rows is a tombstone of `child`.
pub open spec fn has_child_before(rows: Seq<TombstoneRecord>, upto: int, child: u64) -> bool {
    exists|j: int| 0 <= j < upto && (#[trigger] rows[j]).child_inode == child
}

/// The rows of the old tombstone table that the new one takes: of each
/// child the first row, in the order of the old table.
pub open spec fn first_per_child(rows: Seq<TombstoneRecord>) -> Seq<TombstoneRecord>
    decreases rows.len(),
{
    if rows.len() == 0 {
        Seq::empty()
    } else {
        let before = first_per_child(rows.drop_last());
        if has_child_before(rows, rows.len() - 1, rows.last().child_inode) {
            before
        } else {
            before.push(rows.last())
        }
    }
}

/// What the rows that are taken have of a child: a row iff the old table
/// has one, and no two.
pub proof fn lemma_first_per_child(rows: Seq<TombstoneRecord>)
    ensures
        forall|child: u64|
            has_child_before(rows, rows.len() as int, child) <==> #[trigger] has_child_before(
                first_per_child(rows),
                first_per_child(rows).len() as int,
                child,
            ),
        forall|i: int, j: int|
            0 <= i < first_per_child(rows).len() && 0 <= j < first_per_child(rows).len() && (
            #[trigger] first_per_child(rows)[i]).child_inode == (#[trigger] first_per_child(
                rows,
            )[j]).child_inode ==> i == j,
        first_per_child(rows).len() <= rows.len(),
    decreases rows.len(),
{
    if rows.len() > 0 {
        let init = rows.drop_last();
        let last = rows.last();
        let n = rows.len() - 1;
        lemma_first_per_child(init);
        let before = first_per_child(init);
        let after = first_per_child(rows);
        assert forall|c: u64| has_child_before(rows, n, c) <==> has_child_before(
            init,
            init.len() as int,
            c,
        ) by {
            if has_child_before(rows, n, c) {
                let j = choose|j: int| 0 <= j < n && (#[trigger] rows[j]).child_inode == c;
                assert(init[j] == rows[j]);
            }
            if has_child_before(init, init.len() as int, c) {
                let j = choose|j: int| 0 <= j < init.len() && (#[trigger] init[j]).child_inode == c;
                assert(init[j] == rows[j]);
            }
        }
        assert forall|child: u64|
            has_child_before(rows, rows.len() as int, child) <==> #[trigger] has_child_before(
                after,
                after.len() as int,
                child,
            ) by {
            if has_child_before(rows, rows.len() as int, child) {
                let j = choose|j: int|
                    0 <= j < rows.len() && (#[trigger] rows[j]).child_inode == child;
                if j < n {
                    assert(has_child_before(rows, n, child));
                    assert(has_child_before(before, before.len() as int, child));
                    let k = choose|k: int|
                        0 <= k < before.len() && (#[trigger] before[k]).child_inode == child;
                    assert(after[k] == before[k]);
                } else if has_child_before(rows, n, last.child_inode) {
                    assert(has_child_before(before, before.len() as int, child));
                } else {
                    assert(after[before.len() as int] == last);
                }
            }
            if has_child_before(after, after.len() as int, child) {
                let k = choose|k: int|
                    0 <= k < after.len() && (#[trigger] after[k]).child_inode == child;
                if k < before.len() {
                    assert(after[k] == before[k]);
                    assert(has_child_before(before, before.len() as int, child));
                    assert(has_child_before(rows, n, child));
                    let j = choose|j: int| 0 <= j < n && (#[trigger] rows[j]).child_inode == child;
                    assert(rows[j].child_inode == child);
                } else {
                    assert(rows[n].child_inode == child);
                }
            }
        }
        assert forall|i: int, j: int|
            0 <= i < after.len() && 0 <= j < after.len() && (#[trigger] after[i]).child_inode == (
            #[trigger] after[j]).child_inode implies i == j by {
            if i < before.len() && j < before.len() {
                assert(after[i] == before[i] && after[j] == before[j]);
            } else if i < before.len() {
                assert(after[i] == before[i]);
                assert(has_child_before(before, before.len() as int, last.child_inode));
            } else if j < before.len() {
                assert(after[j] == before[j]);
                assert(has_child_before(before, before.len() as int, last.child_inode));
            }
        }
    }
}

/// Moves the rows of the old tombstone table to the new one: of each child
/// the first row is taken, and the later ones are ignored.
pub fn dedupe_tombstones(rows: &Vec<TombstoneRecord>) -> (kept: Vec<TombstoneRecord>)
    ensures
        kept@ == first_per_child(rows@),
{
    let mut kept: Vec<TombstoneRecord> = Vec::new();
    let mut i: usize = 0;
    proof {
        assert(rows@.subrange(0, 0) =~= Seq::<TombstoneRecord>::empty());
    }
    while i < rows.len()
        invariant
            i <= rows.len(),
            kept@ == first_per_child(rows@.subrange(0, i as int)),
        decreases rows.len() - i,
    {
        let ghost next = rows@.subrange(0, i + 1);
        proof {
            assert(next.drop_last() =~= rows@.subrange(0, i as int));
            assert(next.last() == rows@[i as int]);
        }
        let child = rows[i].child_inode;
        let mut seen = false;
        let mut k: usize = 0;
        while k < i && !seen
            invariant
                k <= i < rows.len(),
                child == rows@[i as int].child_inode,
                next == rows@.subrange(0, i + 1),
                seen ==> has_child_before(next, i as int, child),
                !seen ==> forall|j: int| 0 <= j < k ==> (#[trigger] next[j]).child_inode != child,
            decreases i - k, if seen { 0int } else { 1int },
        {
            if rows[k].child_inode == child {
                proof {
                    assert(next[k as int] == rows@[k as int]);
                }
                seen = true;
            } else {
                proof {
                    assert(next[k as int] == rows@[k as int]);
                }
                k += 1;
            }
        }
        if !seen {
            kept.push(
                TombstoneRecord {
                    parent_inode: rows[i].parent_inode,
                    child_inode: child,
                    name: rows[i].name.clone(),
                    deleted_at: rows[i].deleted_at,
                },
            );
        }
        i += 1;
    }
    proof {
        assert(rows@.subrange(0, i as int) =~= rows@);
    }
    kept
}

/// Where no child has two rows, every row is taken: moving the rows again
/// changes nothing.
pub proof fn law_dedupe_runs_once(rows: Seq<TombstoneRecord>)
    requires
        forall|i: int, j: int|
            0 <= i < rows.len() && 0 <= j < rows.len() && (#[trigger] rows[i]).child_inode == (
            #[trigger] rows[j]).child_inode ==> i == j,
    ensures
        first_per_child(rows) == rows,
    decreases rows.len(),
{
    if rows.len() > 0 {
        let init = rows.drop_last();
        assert forall|i: int, j: int|
            0 <= i < init.len() && 0 <= j < init.len() && (#[trigger] init[i]).child_inode == (
            #[trigger] init[j]).child_inode implies i == j by {
            assert(init[i] == rows[i] && init[j] == rows[j]);
        }
        law_dedupe_runs_once(init);
        if has_child_before(rows, rows.len() - 1, rows.last().child_inode) {
            let j = choose|j: int|
                0 <= j < rows.len() - 1 && (#[trigger] rows[j]).child_inode
                    == rows.last().child_inode;
            assert(rows[j].child_inode == rows[rows.len() - 1].child_inode);
        }
        assert(init.push(rows.last()) =~= rows);
    } else {
        assert(first_per_child(rows) =~= rows);
    }
}

} // verus!
