use gdrivexp::db::repository::{MetadataRepository, StoreError};

const FOLDER: &str = "application/vnd.google-apps.folder";

fn store_with_root() -> MetadataRepository {
    let mut db = MetadataRepository::new();
    db.ensure_root(100).unwrap();
    db
}

fn add_file(db: &mut MetadataRepository, parent: u64, id: &str, name: &str) -> u64 {
    let inode = db.get_or_create_inode(id, 100).unwrap();
    db.upsert_file_metadata(inode, 11, 100, 0o644, false, Some("text/plain")).unwrap();
    db.upsert_dentry(parent, inode, name).unwrap();
    inode
}

fn add_dir(db: &mut MetadataRepository, parent: u64, id: &str, name: &str) -> u64 {
    let inode = db.get_or_create_inode(id, 100).unwrap();
    db.upsert_file_metadata(inode, 4096, 100, 0o755, true, Some(FOLDER)).unwrap();
    db.upsert_dentry(parent, inode, name).unwrap();
    inode
}

#[test]
fn a_new_store_is_empty() {
    let db = MetadataRepository::new();
    assert!(db.is_empty());
    assert_eq!(db.lookup(1, "a"), None);
    assert_eq!(db.count_children(1), 0);
    assert_eq!(db.next_inode(), 2);
}

#[test]
fn the_root_is_installed_once() {
    let mut db = MetadataRepository::new();
    assert_eq!(db.ensure_root(100), Ok(()));
    let first = db.get_attrs(1, 999).unwrap();
    assert_eq!(first.inode, 1);
    assert_eq!(first.size, 4096);
    assert_eq!(first.mtime, 100);
    assert_eq!(first.ctime, 100);
    assert_eq!(first.mode, 0o755);
    assert!(first.is_dir);
    assert_eq!(first.mime_type.as_deref(), Some(FOLDER));
    assert_eq!(db.ensure_root(500), Ok(()));
    assert_eq!(db.get_attrs(1, 999).unwrap().mtime, 100);
    assert_eq!(db.get_inode_by_gdrive_id("root"), Some(1));
    assert!(db.is_empty());
}

#[test]
fn the_root_is_refused_where_its_id_is_taken() {
    let mut db = MetadataRepository::new();
    assert_eq!(db.get_or_create_inode("root", 1), Ok(2));
    assert_eq!(db.ensure_root(100), Err(StoreError::Conflict));
    assert_eq!(db.get_gdrive_id(1), None);
}

#[test]
fn the_root_has_attributes_before_it_is_installed() {
    let db = MetadataRepository::new();
    let attrs = db.get_attrs(1, 77).unwrap();
    assert_eq!(attrs.inode, 1);
    assert_eq!(attrs.mtime, 77);
    assert_eq!(attrs.ctime, 77);
    assert_eq!(attrs.mode, 0o755);
    assert!(attrs.is_dir);
    assert!(matches!(db.get_attrs(2, 77), Err(StoreError::NotFound)));
}

#[test]
fn inodes_are_handed_out_in_ascending_order() {
    let mut db = store_with_root();
    assert_eq!(db.get_or_create_inode("a", 1), Ok(2));
    assert_eq!(db.get_or_create_inode("b", 1), Ok(3));
    assert_eq!(db.get_or_create_inode("a", 9), Ok(2));
    assert_eq!(db.get_inode_by_gdrive_id("b"), Some(3));
    assert_eq!(db.get_inode_by_gdrive_id("c"), None);
    assert_eq!(db.get_gdrive_id(3).as_deref(), Some("b"));
    assert!(!db.is_empty());
}

#[test]
fn the_store_fails_when_the_inode_numbers_are_used_up() {
    let mut db = store_with_root();
    db.reserve_inodes(0x8000_0000_0000_0000);
    assert_eq!(db.next_inode(), 0x8000_0000_0000_0000);
    assert_eq!(db.get_or_create_inode("a", 1), Err(StoreError::Io));
    assert_eq!(db.get_or_create_inode("root", 1), Ok(1));
    db.reserve_inodes(5);
    assert_eq!(db.next_inode(), 0x8000_0000_0000_0000);
}

#[test]
fn attributes_need_an_inode() {
    let mut db = store_with_root();
    assert_eq!(
        db.upsert_file_metadata(9, 1, 1, 0o644, false, None),
        Err(StoreError::NotFound)
    );
    assert_eq!(db.set_remote_md5(9, "m"), Err(StoreError::NotFound));
    assert_eq!(db.mark_dirty(9), Err(StoreError::NotFound));
    assert_eq!(db.add_cached_chunk(9, 0, 1), Err(StoreError::NotFound));
    assert_eq!(db.upsert_dentry(1, 9, "x"), Err(StoreError::NotFound));
    assert_eq!(db.upsert_dentry(9, 1, "x"), Err(StoreError::NotFound));
    assert_eq!(db.set_remote_id(9, "x"), Err(StoreError::NotFound));
}

#[test]
fn an_upsert_keeps_the_creation_time() {
    let mut db = store_with_root();
    let inode = db.get_or_create_inode("a", 5).unwrap();
    db.upsert_file_metadata(inode, 10, 50, 0o644, false, Some("text/plain")).unwrap();
    db.upsert_file_metadata(inode, 20, 60, 0o600, false, None).unwrap();
    let attrs = db.get_attrs(inode, 0).unwrap();
    assert_eq!(attrs.size, 20);
    assert_eq!(attrs.mtime, 60);
    assert_eq!(attrs.ctime, 50);
    assert_eq!(attrs.mode, 0o600);
    assert_eq!(attrs.mime_type, None);
    assert!(db.has_attrs(inode));
    assert!(!db.has_attrs(99));
}

#[test]
fn a_name_leads_to_one_child() {
    let mut db = store_with_root();
    let a = add_file(&mut db, 1, "a", "same.txt");
    let b = add_file(&mut db, 1, "b", "same.txt");
    assert_ne!(a, b);
    assert_eq!(db.lookup(1, "same.txt"), Some(b));
    assert_eq!(db.count_children(1), 1);
    assert_eq!(db.get_file_name(a), None);
    assert_eq!(db.get_file_name(b).as_deref(), Some("same.txt"));
}

#[test]
fn a_child_stands_at_one_place() {
    let mut db = store_with_root();
    let dir = add_dir(&mut db, 1, "d", "dir");
    let a = add_file(&mut db, 1, "a", "a.txt");
    db.upsert_dentry(dir, a, "moved.txt").unwrap();
    assert_eq!(db.lookup(1, "a.txt"), None);
    assert_eq!(db.lookup(dir, "moved.txt"), Some(a));
    assert_eq!(db.get_parent(a), Some(dir));
    assert_eq!(db.count_children(1), 1);
    assert_eq!(db.count_children(dir), 1);
}

#[test]
fn children_are_listed_by_name() {
    let mut db = store_with_root();
    let c = add_file(&mut db, 1, "c", "c.txt");
    let a = add_dir(&mut db, 1, "a", "a");
    let b = add_file(&mut db, 1, "b", "b.txt");
    let bare = db.get_or_create_inode("bare", 1).unwrap();
    db.upsert_dentry(1, bare, "aa-no-attrs").unwrap();
    assert_eq!(
        db.list_children(1),
        vec![
            (a, "a".to_string(), true),
            (b, "b.txt".to_string(), false),
            (c, "c.txt".to_string(), false)
        ]
    );
    let extended = db.list_children_extended(1);
    assert_eq!(extended.len(), 3);
    assert_eq!(
        extended[0],
        (a, "a".to_string(), true, Some(FOLDER.to_string()), "a".to_string())
    );
    assert_eq!(
        extended[2],
        (c, "c.txt".to_string(), false, Some("text/plain".to_string()), "c".to_string())
    );
    assert_eq!(db.count_children(1), 4);
    assert_eq!(db.list_children(a), vec![]);
}

#[test]
fn names_are_ordered_by_their_bytes() {
    let mut db = store_with_root();
    let lower = add_file(&mut db, 1, "1", "b");
    let upper = add_file(&mut db, 1, "2", "B");
    let accent = add_file(&mut db, 1, "3", "á");
    let longer = add_file(&mut db, 1, "4", "ba");
    let names: Vec<u64> = db.list_children(1).into_iter().map(|e| e.0).collect();
    assert_eq!(names, vec![upper, lower, longer, accent]);
}

#[test]
fn key_value_pairs_are_kept() {
    let mut db = MetadataRepository::new();
    assert_eq!(db.get_sync_meta("changes_page_token"), None);
    db.set_sync_meta("changes_page_token", "t1", 1);
    db.set_sync_meta("other", "x", 1);
    db.set_sync_meta("changes_page_token", "t2", 2);
    assert_eq!(db.get_sync_meta("changes_page_token").as_deref(), Some("t2"));
    assert_eq!(db.get_sync_meta("other").as_deref(), Some("x"));
    assert_eq!(db.export_meta().len(), 2);
}

#[test]
fn the_remote_checksum_is_kept_without_making_dirty() {
    let mut db = store_with_root();
    let a = add_file(&mut db, 1, "a", "a.txt");
    assert_eq!(db.get_remote_md5(a), None);
    assert_eq!(db.sync_state(a), None);
    db.set_remote_md5(a, "m1").unwrap();
    assert_eq!(db.get_remote_md5(a).as_deref(), Some("m1"));
    assert_eq!(db.sync_state(a), Some((false, None)));
    db.mark_dirty(a).unwrap();
    db.set_remote_md5(a, "m2").unwrap();
    assert_eq!(db.get_remote_md5(a).as_deref(), Some("m2"));
    assert_eq!(db.sync_state(a), Some((true, None)));
    db.mark_clean(a);
    assert_eq!(db.sync_state(a), Some((false, None)));
    db.mark_clean(99);
    assert_eq!(db.sync_state(99), None);
}

#[test]
fn a_new_remote_id_must_be_free() {
    let mut db = store_with_root();
    let a = add_file(&mut db, 1, "temp_1", "a.txt");
    let b = add_file(&mut db, 1, "real_b", "b.txt");
    assert_eq!(db.set_remote_id(a, "real_b"), Err(StoreError::Conflict));
    assert_eq!(db.set_remote_id(a, "real_a"), Ok(()));
    assert_eq!(db.set_remote_id(a, "real_a"), Ok(()));
    assert_eq!(db.get_inode_by_gdrive_id("real_a"), Some(a));
    assert_eq!(db.get_inode_by_gdrive_id("temp_1"), None);
    assert_eq!(db.get_inode_by_gdrive_id("real_b"), Some(b));
}

#[test]
fn soft_delete_makes_a_tombstone() {
    let mut db = store_with_root();
    let a = add_file(&mut db, 1, "a", "a.txt");
    assert!(!db.has_tombstone("a"));
    assert!(db.soft_delete_by_gdrive_id("a", 1000));
    assert_eq!(db.lookup(1, "a.txt"), None);
    assert!(db.has_tombstone("a"));
    assert_eq!(db.sync_state(a), Some((true, Some(1000))));
    assert_eq!(db.get_file_name(a), None);
    let tombstones = db.export_tombstones();
    assert_eq!(tombstones.len(), 1);
    assert_eq!(tombstones[0].child, a);
    assert_eq!(tombstones[0].parent, 1);
    assert_eq!(tombstones[0].name, "a.txt");
    assert_eq!(tombstones[0].deleted_at, 1000);
    assert!(db.get_attrs(a, 0).is_ok());
}

#[test]
fn soft_delete_of_an_unknown_id_changes_nothing() {
    let mut db = store_with_root();
    add_file(&mut db, 1, "a", "a.txt");
    assert!(!db.soft_delete_by_gdrive_id("nobody", 1000));
    assert!(!db.restore_by_gdrive_id("nobody"));
    assert!(!db.has_tombstone("nobody"));
    assert_eq!(db.export_tombstones().len(), 0);
    assert_eq!(db.export_sync().len(), 0);
    assert_eq!(db.count_children(1), 1);
}

#[test]
fn restore_puts_the_entry_back() {
    let mut db = store_with_root();
    let a = add_file(&mut db, 1, "a", "a.txt");
    db.soft_delete_by_gdrive_id("a", 1000);
    assert!(db.restore_by_gdrive_id("a"));
    assert_eq!(db.lookup(1, "a.txt"), Some(a));
    assert!(!db.has_tombstone("a"));
    assert_eq!(db.sync_state(a), Some((true, None)));
}

#[test]
fn the_last_of_soft_delete_and_restore_decides() {
    let mut db = store_with_root();
    let a = add_file(&mut db, 1, "a", "a.txt");
    for round in 0..3 {
        db.soft_delete_by_gdrive_id("a", 1000 + round);
        db.soft_delete_by_gdrive_id("a", 2000 + round);
        db.restore_by_gdrive_id("a");
        db.soft_delete_by_gdrive_id("a", 3000 + round);
        assert_eq!(db.lookup(1, "a.txt"), None);
        assert!(db.has_tombstone("a"));
        db.restore_by_gdrive_id("a");
        db.restore_by_gdrive_id("a");
        assert_eq!(db.lookup(1, "a.txt"), Some(a));
        assert!(!db.has_tombstone("a"));
    }
    assert_eq!(db.export_dentries().len(), 1);
    assert_eq!(db.export_tombstones().len(), 0);
}

#[test]
fn a_soft_deleted_inode_cannot_be_linked() {
    let mut db = store_with_root();
    let a = add_file(&mut db, 1, "a", "a.txt");
    db.soft_delete_by_gdrive_id("a", 1000);
    assert_eq!(db.upsert_dentry(1, a, "again.txt"), Err(StoreError::Conflict));
    assert_eq!(db.lookup(1, "again.txt"), None);
}

#[test]
fn expired_tombstones_are_purged_with_all_their_rows() {
    let mut db = store_with_root();
    let a = add_file(&mut db, 1, "a", "a.txt");
    let b = add_file(&mut db, 1, "b", "b.txt");
    db.add_cached_chunk(a, 0, 10).unwrap();
    db.set_remote_md5(a, "m").unwrap();
    db.soft_delete_by_gdrive_id("a", 1000);
    db.soft_delete_by_gdrive_id("b", 2000);
    let week = 7 * 86400;
    assert_eq!(db.purge_expired_tombstones(7, 1000 + week), 0);
    assert!(db.has_tombstone("a"));
    assert_eq!(db.purge_expired_tombstones(7, 1001 + week), 1);
    assert_eq!(db.get_gdrive_id(a), None);
    assert!(matches!(db.get_attrs(a, 0), Err(StoreError::NotFound)));
    assert_eq!(db.sync_state(a), None);
    assert_eq!(db.get_missing_ranges(a, 0, 10), vec![(0, 10)]);
    assert!(!db.has_tombstone("a"));
    assert_eq!(db.get_inode_by_gdrive_id("a"), None);
    assert!(db.has_tombstone("b"));
    assert_eq!(db.get_gdrive_id(b).as_deref(), Some("b"));
    assert_eq!(db.export_chunks().len(), 0);
    assert_eq!(db.purge_expired_tombstones(0, 2001), 1);
    assert_eq!(db.export_inodes().len(), 1);
}

#[test]
fn a_purged_directory_takes_its_entries_along() {
    let mut db = store_with_root();
    let dir = add_dir(&mut db, 1, "d", "dir");
    let child = add_file(&mut db, dir, "c", "c.txt");
    let gone = add_file(&mut db, dir, "g", "g.txt");
    db.soft_delete_by_gdrive_id("g", 5000);
    db.soft_delete_by_gdrive_id("d", 10);
    assert_eq!(db.purge_expired_tombstones(1, 10 + 86400 + 1), 1);
    assert_eq!(db.lookup(dir, "c.txt"), None);
    assert_eq!(db.get_gdrive_id(child).as_deref(), Some("c"));
    assert!(!db.has_tombstone("g"));
    assert_eq!(db.get_gdrive_id(gone).as_deref(), Some("g"));
    assert_eq!(db.export_dentries().len(), 0);
    assert_eq!(db.export_tombstones().len(), 0);
}

#[test]
fn chunks_are_refused_for_directories_and_empty_ranges() {
    let mut db = store_with_root();
    let dir = add_dir(&mut db, 1, "d", "dir");
    let a = add_file(&mut db, 1, "a", "a.txt");
    assert_eq!(db.add_cached_chunk(dir, 0, 10), Err(StoreError::Conflict));
    assert_eq!(db.add_cached_chunk(a, 11, 10), Err(StoreError::Conflict));
    assert_eq!(db.add_cached_chunk(a, 10, 10), Ok(()));
    assert_eq!(
        db.upsert_file_metadata(a, 4096, 1, 0o755, true, Some(FOLDER)),
        Err(StoreError::Conflict)
    );
    db.clear_cached_chunks(a);
    assert_eq!(db.upsert_file_metadata(a, 4096, 1, 0o755, true, Some(FOLDER)), Ok(()));
}

#[test]
fn a_cached_range_is_not_missing() {
    let mut db = store_with_root();
    let a = add_file(&mut db, 1, "a", "a.bin");
    let b = add_file(&mut db, 1, "b", "b.bin");
    assert_eq!(db.get_missing_ranges(a, 100, 199), vec![(100, 199)]);
    db.add_cached_chunk(a, 100, 199).unwrap();
    assert_eq!(db.get_missing_ranges(a, 100, 199), vec![]);
    assert_eq!(db.get_missing_ranges(a, 50, 250), vec![(50, 99), (200, 250)]);
    assert_eq!(db.get_missing_ranges(b, 100, 199), vec![(100, 199)]);
    db.add_cached_chunk(a, 0, 49).unwrap();
    db.add_cached_chunk(a, 30, 120).unwrap();
    assert_eq!(db.get_missing_ranges(a, 0, 300), vec![(200, 300)]);
}

#[test]
fn a_shorter_chunk_does_not_uncover_a_longer_one() {
    let mut db = store_with_root();
    let a = add_file(&mut db, 1, "a", "a.bin");
    db.add_cached_chunk(a, 0, 100).unwrap();
    db.add_cached_chunk(a, 0, 50).unwrap();
    assert_eq!(db.get_missing_ranges(a, 0, 100), vec![]);
    assert_eq!(db.export_chunks().len(), 1);
    assert_eq!(db.export_chunks()[0].end, 100);
    db.add_cached_chunk(a, 0, 150).unwrap();
    assert_eq!(db.export_chunks()[0].end, 150);
}

#[test]
fn clearing_chunks_uncovers_the_file() {
    let mut db = store_with_root();
    let a = add_file(&mut db, 1, "a", "a.bin");
    let b = add_file(&mut db, 1, "b", "b.bin");
    db.add_cached_chunk(a, 0, 9).unwrap();
    db.add_cached_chunk(a, 20, 29).unwrap();
    db.add_cached_chunk(b, 0, 9).unwrap();
    db.clear_cached_chunks(a);
    assert_eq!(db.get_missing_ranges(a, 0, 29), vec![(0, 29)]);
    assert_eq!(db.get_missing_ranges(b, 0, 9), vec![]);
}

#[test]
fn dirty_files_are_listed_once() {
    let mut db = store_with_root();
    let a = add_file(&mut db, 1, "a", "a.txt");
    let b = add_file(&mut db, 1, "temp_b", "b.txt");
    let c = add_file(&mut db, 1, "c", "c.txt");
    db.mark_dirty(a).unwrap();
    db.mark_dirty(a).unwrap();
    db.soft_delete_by_gdrive_id("temp_b", 5);
    db.set_remote_md5(c, "m").unwrap();
    let mut dirty = db.dirty_files();
    dirty.sort();
    assert_eq!(
        dirty,
        vec![(a, "a".to_string(), false), (b, "temp_b".to_string(), true)]
    );
}

#[test]
fn patched_attributes_keep_the_other_fields() {
    let mut db = store_with_root();
    let a = add_file(&mut db, 1, "a", "a.txt");
    db.patch_attrs(a, Some(5), None, None);
    db.patch_attrs(a, None, Some(7), Some(0o600));
    db.patch_attrs(99, Some(5), None, None);
    let attrs = db.get_attrs(a, 0).unwrap();
    assert_eq!(attrs.size, 5);
    assert_eq!(attrs.mtime, 7);
    assert_eq!(attrs.ctime, 100);
    assert_eq!(attrs.mode, 0o600);
    assert_eq!(attrs.mime_type.as_deref(), Some("text/plain"));
}

#[test]
fn a_saved_store_is_loaded_as_it_was() {
    let mut db = store_with_root();
    let dir = add_dir(&mut db, 1, "d", "dir");
    let a = add_file(&mut db, dir, "a", "a.txt");
    let b = add_file(&mut db, dir, "b", "b.txt");
    db.add_cached_chunk(a, 0, 10).unwrap();
    db.set_remote_md5(a, "m1").unwrap();
    db.mark_dirty(a).unwrap();
    db.soft_delete_by_gdrive_id("b", 777);
    db.set_sync_meta("changes_page_token", "tok", 9);

    let mut copy = MetadataRepository::new();
    for row in db.export_inodes() {
        copy.restore_inode(row.inode, &row.remote_id, row.created_at).unwrap();
    }
    copy.reserve_inodes(db.next_inode());
    for row in db.export_attrs() {
        copy.upsert_file_metadata(
            row.inode,
            row.size,
            row.mtime,
            0,
            row.is_dir,
            row.mime_type.as_deref(),
        )
        .unwrap();
        copy.patch_attrs(row.inode, None, None, Some(row.mode));
        copy.set_ctime(row.inode, row.ctime);
    }
    for row in db.export_dentries() {
        copy.upsert_dentry(row.parent, row.child, &row.name).unwrap();
    }
    for row in db.export_tombstones() {
        copy.restore_tombstone(row.child, row.parent, &row.name, row.deleted_at).unwrap();
    }
    for row in db.export_sync() {
        copy.restore_sync(
            row.inode,
            row.dirty,
            row.version,
            row.remote_md5.as_deref(),
            row.deleted_at,
        )
        .unwrap();
    }
    for row in db.export_chunks() {
        copy.add_cached_chunk(row.inode, row.start, row.end).unwrap();
    }
    for row in db.export_meta() {
        copy.set_sync_meta(&row.key, &row.value, row.updated_at);
    }

    assert_eq!(copy.next_inode(), db.next_inode());
    assert_eq!(copy.lookup(1, "dir"), Some(dir));
    assert_eq!(copy.lookup(dir, "a.txt"), Some(a));
    assert_eq!(copy.lookup(dir, "b.txt"), None);
    assert!(copy.has_tombstone("b"));
    assert_eq!(copy.sync_state(a), Some((true, None)));
    assert_eq!(copy.sync_state(b), Some((true, Some(777))));
    assert_eq!(copy.get_remote_md5(a).as_deref(), Some("m1"));
    assert_eq!(copy.get_missing_ranges(a, 0, 20), vec![(11, 20)]);
    assert_eq!(copy.get_sync_meta("changes_page_token").as_deref(), Some("tok"));
    let attrs = copy.get_attrs(dir, 0).unwrap();
    assert_eq!(attrs.mode, 0o755);
    assert_eq!(attrs.ctime, 100);
    assert!(attrs.is_dir);
}

#[test]
fn loading_refuses_rows_that_break_the_rules() {
    let mut db = store_with_root();
    let a = add_file(&mut db, 1, "a", "a.txt");
    assert_eq!(db.restore_inode(0, "zero", 1), Err(StoreError::Conflict));
    assert_eq!(db.restore_inode(a, "other", 1), Err(StoreError::Conflict));
    assert_eq!(db.restore_inode(50, "a", 1), Err(StoreError::Conflict));
    assert_eq!(db.restore_inode(50, "fifty", 1), Ok(()));
    assert_eq!(db.next_inode(), 51);
    assert_eq!(db.restore_tombstone(a, 1, "a.txt", 5), Err(StoreError::Conflict));
    assert_eq!(db.restore_tombstone(50, 99, "x", 5), Err(StoreError::NotFound));
    assert_eq!(db.restore_tombstone(50, 1, "x", 5), Ok(()));
    assert!(db.has_tombstone("fifty"));
    assert_eq!(db.restore_sync(99, true, 0, None, None), Err(StoreError::NotFound));
}
