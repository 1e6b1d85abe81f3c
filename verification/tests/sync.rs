use gdrivexp::db::repository::{MetadataRepository, StoreError};
use gdrivexp::fuse::filesystem::GDriveFS;
use gdrivexp::fuse::shortcuts::generate_html;
use gdrivexp::gdrive::error::DriveError;
use gdrivexp::sync::bootstrap::{sync_all_metadata, RemoteFile};
use gdrivexp::sync::syncer::{next_backoff, BackgroundSyncer, RemoteChange, SyncError};
use gdrivexp::sync::uploader::{
    conflict_name, format_timestamp, TrashOutcome, UploadAction, UploadError, Uploader,
};

const FOLDER: &str = "application/vnd.google-apps.folder";
const DOCUMENT: &str = "application/vnd.google-apps.document";

fn remote(id: &str, name: &str, parents: &[&str], mime: &str, size: i64, md5: Option<&str>) -> RemoteFile {
    RemoteFile {
        id: Some(id.to_string()),
        name: Some(name.to_string()),
        parents: Some(parents.iter().map(|p| p.to_string()).collect()),
        mime_type: Some(mime.to_string()),
        size: Some(size),
        modified_time: Some(1_700_000_000),
        md5_checksum: md5.map(|m| m.to_string()),
        trashed: None,
    }
}

fn account() -> Vec<RemoteFile> {
    vec![
        remote("x", "x.txt", &["a"], "text/plain", 11, Some("m1")),
        remote("a", "A", &["root"], FOLDER, 0, None),
        remote("y", "y.gdoc", &["root"], DOCUMENT, 0, None),
    ]
}

fn mounted() -> (MetadataRepository, u64, u64, u64) {
    let mut db = MetadataRepository::new();
    sync_all_metadata(&mut db, &account(), 100).unwrap();
    let a = db.lookup(1, "A").unwrap();
    let x = db.lookup(a, "x.txt").unwrap();
    let y = db.lookup(1, "y.gdoc").unwrap();
    (db, a, x, y)
}

fn change(id: &str, file: Option<RemoteFile>, removed: bool) -> RemoteChange {
    RemoteChange { file_id: Some(id.to_string()), removed: Some(removed), file }
}

#[test]
fn the_first_synchronization_builds_the_tree() {
    let mut db = MetadataRepository::new();
    assert!(db.is_empty());
    assert_eq!(sync_all_metadata(&mut db, &account(), 100), Ok(()));
    let a = db.lookup(1, "A").unwrap();
    let x = db.lookup(a, "x.txt").unwrap();
    let y = db.lookup(1, "y.gdoc").unwrap();
    assert_eq!(db.get_inode_by_gdrive_id("a"), Some(a));
    assert_eq!(db.get_inode_by_gdrive_id("x"), Some(x));
    let dir = db.get_attrs(a, 0).unwrap();
    assert!(dir.is_dir);
    assert_eq!(dir.mode, 0o755);
    let file = db.get_attrs(x, 0).unwrap();
    assert!(!file.is_dir);
    assert_eq!(file.mode, 0o644);
    assert_eq!(file.size, 11);
    assert_eq!(file.mtime, 1_700_000_000);
    let fs = GDriveFS::new("/cache".to_string(), 0, 0);
    assert_eq!(
        fs.getattr(&db, y, 0).unwrap().attr.size,
        generate_html("y", "y.gdoc", DOCUMENT).len() as u64
    );
    assert_eq!(db.get_attrs(1, 0).unwrap().mime_type.as_deref(), Some(FOLDER));
    assert_eq!(db.sync_state(x), None);
}

#[test]
fn files_without_a_known_parent_hang_from_the_root() {
    let mut db = MetadataRepository::new();
    let mut orphan = remote("o", "orphan", &["elsewhere"], "text/plain", 1, None);
    let mut bare = remote("b", "bare", &[], "text/plain", 1, None);
    bare.parents = None;
    let second = remote("s", "second", &["elsewhere", "d"], "text/plain", 1, None);
    let dir = remote("d", "dir", &["root"], FOLDER, 0, None);
    let mut nameless = remote("n", "", &["root"], "text/plain", 1, None);
    nameless.name = None;
    let mut no_id = remote("", "no-id", &["root"], "text/plain", 1, None);
    no_id.id = None;
    orphan.size = None;
    orphan.modified_time = None;
    let files = vec![orphan, bare, second, dir, nameless, no_id];
    assert_eq!(sync_all_metadata(&mut db, &files, 100), Ok(()));
    let o = db.lookup(1, "orphan").unwrap();
    assert!(db.lookup(1, "bare").is_some());
    let d = db.lookup(1, "dir").unwrap();
    assert!(db.lookup(d, "second").is_some());
    assert_eq!(db.lookup(1, "second"), None);
    assert_eq!(db.lookup(1, "no-id"), None);
    let n = db.get_inode_by_gdrive_id("n").unwrap();
    assert_eq!(db.get_file_name(n), None);
    assert!(db.get_attrs(n, 0).is_ok());
    assert_eq!(db.get_attrs(o, 0).unwrap().size, 0);
    assert_eq!(db.get_attrs(o, 0).unwrap().mtime, 0);
    assert_eq!(db.export_inodes().len(), 6);
}

#[test]
fn the_first_synchronization_runs_on_a_fresh_store_only() {
    let (mut db, a, x, _) = mounted();
    let other = vec![remote("z", "z.txt", &["root"], "text/plain", 1, None)];
    assert_eq!(sync_all_metadata(&mut db, &other, 500), Ok(()));
    assert_eq!(db.lookup(1, "z.txt"), None);
    assert_eq!(db.get_inode_by_gdrive_id("z"), None);
    assert_eq!(db.lookup(a, "x.txt"), Some(x));
    assert_eq!(db.export_inodes().len(), 4);
}

#[test]
fn the_first_synchronization_stops_where_the_store_fails() {
    let mut db = MetadataRepository::new();
    db.get_or_create_inode("root", 1).unwrap();
    assert_eq!(sync_all_metadata(&mut db, &account(), 100), Err(StoreError::Conflict));
    assert_eq!(db.export_inodes().len(), 1);
}

#[test]
fn a_remote_edit_brings_the_new_checksum() {
    let (mut db, a, x, _) = mounted();
    let syncer = BackgroundSyncer::new(60);
    let edited = remote("x", "x.txt", &["a"], "text/plain", 12, Some("m2"));
    assert_eq!(syncer.process_change(&mut db, &change("x", Some(edited), false), 200), Ok(()));
    assert_eq!(db.get_remote_md5(x).as_deref(), Some("m2"));
    assert_eq!(db.sync_state(x), Some((false, None)));
    assert_eq!(db.get_attrs(x, 0).unwrap().size, 12);
    assert_eq!(db.lookup(a, "x.txt"), Some(x));
}

#[test]
fn a_remote_removal_soft_deletes() {
    let (mut db, a, x, y) = mounted();
    let syncer = BackgroundSyncer::new(60);
    assert_eq!(syncer.process_change(&mut db, &change("x", None, true), 200), Ok(()));
    assert_eq!(db.lookup(a, "x.txt"), None);
    assert!(db.has_tombstone("x"));
    assert_eq!(db.sync_state(x), Some((true, Some(200))));
    let mut trashed = remote("y", "y.gdoc", &["root"], DOCUMENT, 0, None);
    trashed.trashed = Some(true);
    assert_eq!(syncer.process_change(&mut db, &change("y", Some(trashed), false), 300), Ok(()));
    assert_eq!(db.lookup(1, "y.gdoc"), None);
    assert_eq!(db.sync_state(y), Some((true, Some(300))));
    assert_eq!(syncer.process_change(&mut db, &change("nobody", None, true), 300), Ok(()));
}

#[test]
fn a_file_that_comes_back_is_restored() {
    let (mut db, a, x, _) = mounted();
    let syncer = BackgroundSyncer::new(60);
    syncer.process_change(&mut db, &change("x", None, true), 200).unwrap();
    let back = remote("x", "x.txt", &["a"], "text/plain", 11, None);
    assert_eq!(syncer.process_change(&mut db, &change("x", Some(back), false), 300), Ok(()));
    assert_eq!(db.lookup(a, "x.txt"), Some(x));
    assert!(!db.has_tombstone("x"));
    assert_eq!(db.sync_state(x), Some((true, None)));
}

#[test]
fn a_change_names_its_file_and_its_place() {
    let (mut db, a, x, _) = mounted();
    let syncer = BackgroundSyncer::new(60);
    let nothing = RemoteChange { file_id: None, removed: None, file: None };
    assert_eq!(syncer.process_change(&mut db, &nothing, 1), Err(SyncError::MissingFileId));
    let empty = RemoteChange { file_id: Some("x".to_string()), removed: None, file: None };
    assert_eq!(syncer.process_change(&mut db, &empty, 1), Ok(()));
    assert_eq!(db.lookup(a, "x.txt"), Some(x));
    let mut moved = remote("x", "renamed.txt", &["new-folder", "a"], "text/plain", 11, None);
    assert_eq!(syncer.process_change(&mut db, &change("x", Some(moved), false), 1), Ok(()));
    let folder = db.get_inode_by_gdrive_id("new-folder").unwrap();
    assert_eq!(db.lookup(folder, "renamed.txt"), Some(x));
    assert_eq!(db.lookup(a, "x.txt"), None);
    moved = remote("x", "", &[], "text/plain", 11, None);
    moved.name = None;
    assert_eq!(syncer.process_change(&mut db, &change("x", Some(moved), false), 1), Ok(()));
    assert_eq!(db.lookup(1, "unknown"), Some(x));
    let fresh = remote("new", "new.txt", &["root"], "text/plain", 5, Some("m"));
    assert_eq!(syncer.process_change(&mut db, &change("new", Some(fresh), false), 1), Ok(()));
    let new = db.lookup(1, "new.txt").unwrap();
    assert_eq!(db.get_remote_md5(new).as_deref(), Some("m"));
}

#[test]
fn a_change_fails_where_the_store_refuses() {
    let mut db = MetadataRepository::new();
    let syncer = BackgroundSyncer::new(60);
    let file = remote("x", "x.txt", &["root"], "text/plain", 1, None);
    assert_eq!(
        syncer.process_change(&mut db, &change("x", Some(file), false), 1),
        Err(SyncError::Store(StoreError::NotFound))
    );
    assert!(db.get_inode_by_gdrive_id("x").is_some());
}

#[test]
fn a_cycle_applies_the_batch_and_purges() {
    let (mut db, a, x, _) = mounted();
    let syncer = BackgroundSyncer::new(60);
    assert_eq!(syncer.page_token(&db), None);
    syncer.remember_page_token(&mut db, "start", 1);
    assert_eq!(syncer.page_token(&db).as_deref(), Some("start"));
    db.soft_delete_by_gdrive_id("y", 1000);
    let changes = vec![
        RemoteChange { file_id: None, removed: None, file: None },
        change("x", Some(remote("x", "x.txt", &["a"], "text/plain", 11, Some("m2"))), false),
    ];
    let now = 1000 + 7 * 86400 + 1;
    assert_eq!(syncer.sync_once(&mut db, &changes, Some("next"), now), 2);
    assert_eq!(db.get_remote_md5(x).as_deref(), Some("m2"));
    assert_eq!(syncer.page_token(&db).as_deref(), Some("next"));
    assert_eq!(db.get_inode_by_gdrive_id("y"), None);
    assert_eq!(db.lookup(a, "x.txt"), Some(x));
    assert_eq!(syncer.sync_once(&mut db, &Vec::new(), None, now), 0);
    assert_eq!(syncer.page_token(&db).as_deref(), Some("next"));
}

#[test]
fn the_pause_doubles_up_to_five_minutes() {
    assert_eq!(next_backoff(60, 60, false), 120);
    assert_eq!(next_backoff(60, 120, false), 240);
    assert_eq!(next_backoff(60, 240, false), 300);
    assert_eq!(next_backoff(60, 300, false), 300);
    assert_eq!(next_backoff(60, 149, false), 298);
    assert_eq!(next_backoff(60, 150, false), 300);
    assert_eq!(next_backoff(60, u64::MAX, false), 300);
    assert_eq!(next_backoff(60, 300, true), 60);
    assert_eq!(next_backoff(0, 0, false), 0);
    assert_eq!(BackgroundSyncer::new(60).next_pause(120, false), 240);
    assert_eq!(Uploader::new(30, "/c".to_string()).next_pause(240, true), 30);
    assert_eq!(Uploader::new(30, "/c".to_string()).next_pause(30, false), 60);
}

#[test]
fn the_uploader_decides_by_deletion_and_remote_id() {
    let uploader = Uploader::new(30, "/cache".to_string());
    assert_eq!(uploader.upload_file("temp_1", true), UploadAction::ForgetDeletion);
    assert_eq!(uploader.upload_file("real", true), UploadAction::Trash);
    assert_eq!(uploader.upload_file("temp_1", false), UploadAction::Create);
    assert_eq!(uploader.upload_file("real", false), UploadAction::Update);
    assert_eq!(uploader.upload_file("temp", false), UploadAction::Update);
    assert_eq!(uploader.upload_file("", true), UploadAction::Trash);
}

#[test]
fn a_local_write_is_pushed_and_marked_clean() {
    let (mut db, _, x, _) = mounted();
    let fs = GDriveFS::new("/cache".to_string(), 0, 0);
    let uploader = Uploader::new(30, "/cache".to_string());
    db.set_remote_md5(x, "m2").unwrap();
    fs.write(&mut db, x, 3, 11, 500).unwrap();
    assert_eq!(db.get_attrs(x, 0).unwrap().size, 11);
    assert_eq!(uploader.get_dirty_files(&db), vec![(x, "x".to_string(), false)]);
    assert_eq!(uploader.upload_file("x", false), UploadAction::Update);
    let known = db.get_remote_md5(x);
    assert!(!Uploader::is_conflict(&known, &Some("m2".to_string())));
    assert_eq!(uploader.cache_path("x"), "/cache/x");
    assert_eq!(uploader.update_file(&mut db, x, Some("m3")), Ok(()));
    assert_eq!(db.get_remote_md5(x).as_deref(), Some("m3"));
    assert_eq!(db.sync_state(x), Some((false, None)));
    assert!(uploader.get_dirty_files(&db).is_empty());
    assert_eq!(
        uploader.update_file(&mut db, 99, Some("m")),
        Err(UploadError::Store(StoreError::NotFound))
    );
    assert_eq!(uploader.update_file(&mut db, 99, None), Ok(()));
}

#[test]
fn a_conflict_needs_two_checksums_that_differ() {
    let some = |s: &str| Some(s.to_string());
    assert!(Uploader::is_conflict(&some("a"), &some("b")));
    assert!(!Uploader::is_conflict(&some("a"), &some("a")));
    assert!(!Uploader::is_conflict(&None, &some("a")));
    assert!(!Uploader::is_conflict(&some("a"), &None));
    assert!(!Uploader::is_conflict(&None, &None));
}

#[test]
fn a_conflict_becomes_a_copy_beside_the_file() {
    let (mut db, _, x, _) = mounted();
    let uploader = Uploader::new(30, "/cache".to_string());
    db.set_remote_md5(x, "m2'").unwrap();
    db.mark_dirty(x).unwrap();
    assert!(Uploader::is_conflict(&db.get_remote_md5(x), &Some("m2''".to_string())));
    let copy = uploader.handle_conflict(&db, x, "x", 1_705_323_600).unwrap();
    assert_eq!(copy.name, "x (Conflicto local 2024-01-15-130000).txt");
    assert_eq!(copy.parent_remote_id, "a");
    assert_eq!(copy.mime_type.as_deref(), Some("text/plain"));
    assert_eq!(copy.cache_path, "/cache/x");
    assert!(!copy.is_dir);
    uploader.mark_pushed(&mut db, x);
    assert_eq!(db.sync_state(x), Some((false, None)));
    assert_eq!(db.get_remote_md5(x).as_deref(), Some("m2'"));
    assert!(matches!(
        uploader.handle_conflict(&db, 99, "x", 0),
        Err(UploadError::NoAttributes)
    ));
}

#[test]
fn conflict_names_keep_the_extension() {
    assert_eq!(conflict_name("a.tar.gz", "T"), "a.tar (Conflicto local T).gz");
    assert_eq!(conflict_name("README", "T"), "README (Conflicto local T)");
    assert_eq!(conflict_name(".bashrc", "T"), " (Conflicto local T).bashrc");
    assert_eq!(conflict_name("end.", "T"), "end (Conflicto local T).");
    assert_eq!(conflict_name("", "T"), " (Conflicto local T)");
    assert_eq!(conflict_name("añó.txt", "T"), "añó (Conflicto local T).txt");
}

#[test]
fn timestamps_follow_the_calendar() {
    assert_eq!(format_timestamp(0), "1970-01-01-000000");
    assert_eq!(format_timestamp(86_399), "1970-01-01-235959");
    assert_eq!(format_timestamp(951_782_400), "2000-02-29-000000");
    assert_eq!(format_timestamp(1_705_323_600), "2024-01-15-130000");
    assert_eq!(format_timestamp(1_709_251_199), "2024-02-29-235959");
    assert_eq!(format_timestamp(4_107_542_400), "2100-03-01-000000");
    assert_eq!(format_timestamp(253_402_300_800), "10000-01-01-000000");
}

#[test]
fn a_local_file_is_created_remotely() {
    let (mut db, a, _, _) = mounted();
    let fs = GDriveFS::new("/cache".to_string(), 0, 0);
    let uploader = Uploader::new(30, "/cache".to_string());
    fs.create_with_id(&mut db, a, Some("n.txt"), 0o644, 0, "temp_n", 5).unwrap();
    let n = db.lookup(a, "n.txt").unwrap();
    let request = uploader.create_file(&db, n, "temp_n", 0).unwrap();
    assert!(!request.is_dir);
    assert_eq!(request.name, "n.txt");
    assert_eq!(request.parent_remote_id, "a");
    assert_eq!(request.mime_type.as_deref(), Some("application/octet-stream"));
    assert_eq!(request.cache_path, "/cache/temp_n");
    assert_eq!(uploader.finish_create(&mut db, n, "real_n"), Ok(()));
    assert_eq!(db.get_gdrive_id(n).as_deref(), Some("real_n"));
    assert_eq!(db.sync_state(n), Some((false, None)));
    assert_eq!(
        uploader.finish_create(&mut db, n, "x"),
        Err(UploadError::Store(StoreError::Conflict))
    );
    assert_eq!(
        uploader.finish_create(&mut db, 99, "z"),
        Err(UploadError::Store(StoreError::NotFound))
    );
    assert!(matches!(uploader.create_file(&db, 99, "temp_z", 0), Err(UploadError::NoAttributes)));
    let top = db.get_or_create_inode("temp_top", 1).unwrap();
    db.upsert_file_metadata(top, 0, 1, 0o755, true, Some(FOLDER)).unwrap();
    let request = uploader.create_file(&db, top, "temp_top", 0).unwrap();
    assert!(request.is_dir);
    assert_eq!(request.name, format!("file_{}", top));
    assert_eq!(request.parent_remote_id, "root");
    assert_eq!(Uploader::get_parent_gdrive_id(&db, a), "root");
}

#[test]
fn a_deletion_is_pushed_or_taken_back() {
    let (mut db, a, x, y) = mounted();
    let fs = GDriveFS::new("/cache".to_string(), 0, 0);
    let uploader = Uploader::new(30, "/cache".to_string());
    fs.unlink(&mut db, a, Some("x.txt"), 1000).unwrap();
    assert_eq!(uploader.get_dirty_files(&db), vec![(x, "x".to_string(), true)]);
    assert_eq!(
        uploader.delete_file(&mut db, x, "x", TrashOutcome::Failed),
        Err(UploadError::Remote)
    );
    assert_eq!(db.sync_state(x), Some((true, Some(1000))));
    assert_eq!(uploader.delete_file(&mut db, x, "x", TrashOutcome::Trashed), Ok(()));
    assert_eq!(db.sync_state(x), Some((false, Some(1000))));
    assert!(db.has_tombstone("x"));
    assert_eq!(db.purge_expired_tombstones(7, 1000 + 7 * 86400 + 1), 1);
    assert_eq!(db.get_gdrive_id(x), None);
    assert!(matches!(db.get_attrs(x, 0), Err(StoreError::NotFound)));
    assert_eq!(db.sync_state(x), None);

    fs.unlink(&mut db, 1, Some("y.gdoc"), 2000).unwrap();
    assert_eq!(uploader.delete_file(&mut db, y, "y", TrashOutcome::Refused), Ok(()));
    assert_eq!(db.lookup(1, "y.gdoc"), Some(y));
    assert!(!db.has_tombstone("y"));
    assert_eq!(db.sync_state(y), Some((false, None)));

    fs.create_with_id(&mut db, 1, Some("t"), 0o644, 0, "temp_t", 5).unwrap();
    let t = db.lookup(1, "t").unwrap();
    fs.unlink(&mut db, 1, Some("t"), 3000).unwrap();
    assert_eq!(uploader.upload_file("temp_t", true), UploadAction::ForgetDeletion);
    assert_eq!(uploader.delete_file(&mut db, t, "temp_t", TrashOutcome::Failed), Ok(()));
    assert_eq!(db.sync_state(t), Some((false, Some(3000))));
}

#[test]
fn only_missing_permissions_are_permanent() {
    let refused = DriveError::InsufficientPermissions("shared".to_string());
    assert!(refused.is_permanent());
    assert!(!DriveError::Network("down".to_string()).is_permanent());
    assert!(!DriveError::ApiError("500".to_string()).is_permanent());
    assert!(!DriveError::Auth("expired".to_string()).is_permanent());
    assert!(!DriveError::Other("x".to_string()).is_permanent());
    assert_eq!(Uploader::trash_outcome(&Ok(())), TrashOutcome::Trashed);
    assert_eq!(Uploader::trash_outcome(&Err(refused)), TrashOutcome::Refused);
    assert_eq!(
        Uploader::trash_outcome(&Err(DriveError::Network("down".to_string()))),
        TrashOutcome::Failed
    );
}
