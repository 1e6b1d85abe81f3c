use gdrivexp::db::repository::MetadataRepository;
use gdrivexp::fuse::attr::{FileAttributes, FileType};
use gdrivexp::fuse::blob::{resize, write_at};
use gdrivexp::fuse::cache::{read_slice, PrefetchKind, ReadPlan};
use gdrivexp::fuse::changes::SetAttr;
use gdrivexp::fuse::filesystem::{FsError, GDriveFS, ReplyOpen, EINVAL, EIO, ENOENT, ENOTDIR};
use gdrivexp::fuse::shortcuts::generate_html;

const FOLDER: &str = "application/vnd.google-apps.folder";
const DOCUMENT: &str = "application/vnd.google-apps.document";

fn filesystem() -> GDriveFS {
    GDriveFS::new("/cache".to_string(), 1000, 1001)
}

fn store_with_root() -> MetadataRepository {
    let mut db = MetadataRepository::new();
    db.ensure_root(100).unwrap();
    db
}

fn add(db: &mut MetadataRepository, parent: u64, id: &str, name: &str, size: i64, mime: &str) -> u64 {
    let inode = db.get_or_create_inode(id, 100).unwrap();
    let is_dir = mime == FOLDER;
    let mode = if is_dir { 0o755 } else { 0o644 };
    db.upsert_file_metadata(inode, size, 100, mode, is_dir, Some(mime)).unwrap();
    db.upsert_dentry(parent, inode, name).unwrap();
    inode
}

#[test]
fn error_numbers_are_those_of_the_system() {
    assert_eq!(FsError::NotFound.errno(), libc::ENOENT);
    assert_eq!(FsError::Io.errno(), libc::EIO);
    assert_eq!(FsError::InvalidName.errno(), libc::EINVAL);
    assert_eq!(FsError::NotADirectory.errno(), libc::ENOTDIR);
    assert_eq!((ENOENT, EIO, ENOTDIR, EINVAL), (2, 5, 20, 22));
}

#[test]
fn attributes_are_reported_in_blocks_of_512_bytes() {
    let attrs = FileAttributes {
        inode: 7,
        size: 1000,
        mtime: 11,
        ctime: 9,
        mode: 0o100644,
        is_dir: false,
        mime_type: None,
    };
    let attr = attrs.to_file_attr(5, 6);
    assert_eq!(attr.ino, 7);
    assert_eq!(attr.size, 1000);
    assert_eq!(attr.blocks, 2);
    assert_eq!(attr.atime.sec, 11);
    assert_eq!(attr.mtime.sec, 11);
    assert_eq!(attr.ctime.sec, 9);
    assert_eq!(attr.mtime.nsec, 0);
    assert_eq!(attr.kind, FileType::RegularFile);
    assert_eq!(attr.perm, 0o644);
    assert_eq!(attr.nlink, 1);
    assert_eq!((attr.uid, attr.gid), (5, 6));
    assert_eq!(attr.rdev, 0);
    assert_eq!(attr.blksize, 512);
    let empty = FileAttributes { size: 0, ..FileAttributes::root(1) };
    assert_eq!(empty.to_file_attr(0, 0).blocks, 0);
    let one = FileAttributes { size: 1, ..FileAttributes::root(1) };
    assert_eq!(one.to_file_attr(0, 0).blocks, 1);
    let exact = FileAttributes { size: 1024, ..FileAttributes::root(1) };
    assert_eq!(exact.to_file_attr(0, 0).blocks, 2);
    let negative = FileAttributes { size: -5, ..FileAttributes::root(1) };
    assert_eq!(negative.to_file_attr(0, 0).size, 0);
    assert_eq!(FileAttributes::root(1).to_file_attr(0, 0).kind, FileType::Directory);
    assert_eq!(FileAttributes::root(1).to_file_attr(0, 0).perm, 0o755);
}

#[test]
fn lookup_finds_a_child_with_its_attributes() {
    let fs = filesystem();
    let mut db = store_with_root();
    let a = add(&mut db, 1, "a", "a.txt", 11, "text/plain");
    let entry = fs.lookup(&db, 1, Some("a.txt"), 0).unwrap();
    assert_eq!(entry.ttl_secs, 1);
    assert_eq!(entry.generation, 0);
    assert_eq!(entry.attr.ino, a);
    assert_eq!(entry.attr.size, 11);
    assert_eq!(entry.attr.uid, 1000);
    assert_eq!(entry.attr.gid, 1001);
    assert_eq!(fs.lookup(&db, 1, Some("b.txt"), 0), Err(FsError::NotFound));
    assert_eq!(fs.lookup(&db, 1, None, 0), Err(FsError::InvalidName));
    let bare = db.get_or_create_inode("bare", 1).unwrap();
    db.upsert_dentry(1, bare, "bare").unwrap();
    assert_eq!(fs.lookup(&db, 1, Some("bare"), 0), Err(FsError::Io));
}

#[test]
fn getattr_reports_the_size_of_a_shortcut() {
    let fs = filesystem();
    let mut db = store_with_root();
    let y = add(&mut db, 1, "y", "y.gdoc", 0, DOCUMENT);
    let a = add(&mut db, 1, "a", "a.txt", 11, "text/plain");
    let page = generate_html("y", "y.gdoc", DOCUMENT);
    assert_eq!(fs.getattr(&db, y, 0).unwrap().attr.size, page.len() as u64);
    assert_eq!(fs.getattr(&db, y, 0).unwrap().attr.blocks, 0);
    assert_eq!(fs.getattr(&db, y, 0).unwrap().ttl_secs, 1);
    assert_eq!(fs.getattr(&db, a, 0).unwrap().attr.size, 11);
    assert_eq!(fs.getattr(&db, 99, 0), Err(FsError::NotFound));
    match fs.read(&db, y, 0, 1 << 20, None).unwrap() {
        ReadPlan::Inline(bytes) => {
            assert_eq!(bytes, page.as_bytes());
            assert_eq!(bytes.len() as u64, fs.getattr(&db, y, 0).unwrap().attr.size);
        }
        other => panic!("unexpected plan {:?}", other),
    }
    match fs.read(&db, y, 10, 5, None).unwrap() {
        ReadPlan::Inline(bytes) => assert_eq!(bytes, &page.as_bytes()[10..15]),
        other => panic!("unexpected plan {:?}", other),
    }
    match fs.read(&db, y, 1_000_000, 5, None).unwrap() {
        ReadPlan::Inline(bytes) => assert!(bytes.is_empty()),
        other => panic!("unexpected plan {:?}", other),
    }
}

#[test]
fn a_shortcut_without_a_name_is_titled_after_its_inode() {
    let fs = filesystem();
    let mut db = store_with_root();
    let y = db.get_or_create_inode("y", 1).unwrap();
    db.upsert_file_metadata(y, 0, 1, 0o644, false, Some(DOCUMENT)).unwrap();
    let page = generate_html("y", &format!("file_{}", y), DOCUMENT);
    assert_eq!(fs.getattr(&db, y, 0).unwrap().attr.size, page.len() as u64);
}

#[test]
fn opendir_wants_a_directory() {
    let fs = filesystem();
    let mut db = MetadataRepository::new();
    assert_eq!(fs.opendir(&db, 1, 0), Ok(ReplyOpen { fh: 0, flags: 0 }));
    db.ensure_root(1).unwrap();
    let a = add(&mut db, 1, "a", "a.txt", 11, "text/plain");
    let d = add(&mut db, 1, "d", "d", 4096, FOLDER);
    assert_eq!(fs.opendir(&db, d, 0), Ok(ReplyOpen { fh: 0, flags: 0 }));
    assert_eq!(fs.opendir(&db, a, 0), Err(FsError::NotADirectory));
    assert_eq!(fs.opendir(&db, 99, 0), Err(FsError::NotFound));
}

#[test]
fn readdir_lists_the_dots_and_the_children() {
    let fs = filesystem();
    let mut db = store_with_root();
    let d = add(&mut db, 1, "d", "dir", 4096, FOLDER);
    let b = add(&mut db, d, "b", "b.txt", 1, "text/plain");
    let a = add(&mut db, d, "a", "a.txt", 1, "text/plain");
    let all = fs.readdir(&db, d, 0);
    let seen: Vec<(u64, String, i64, FileType)> =
        all.into_iter().map(|e| (e.inode, e.name, e.offset, e.kind)).collect();
    assert_eq!(
        seen,
        vec![
            (d, ".".to_string(), 1, FileType::Directory),
            (d, "..".to_string(), 2, FileType::Directory),
            (a, "a.txt".to_string(), 3, FileType::RegularFile),
            (b, "b.txt".to_string(), 4, FileType::RegularFile)
        ]
    );
    let rest = fs.readdir(&db, d, 3);
    assert_eq!(rest.len(), 1);
    assert_eq!(rest[0].inode, b);
    assert_eq!(rest[0].offset, 4);
    let from_dots = fs.readdir(&db, d, 1);
    assert_eq!(from_dots.len(), 3);
    assert_eq!(from_dots[0].name, "..");
    assert_eq!(from_dots[0].offset, 2);
    let root = fs.readdir(&db, 1, 0);
    assert_eq!(root[1].inode, 1);
    assert_eq!(root[2].inode, d);
    assert_eq!(root[2].kind, FileType::Directory);
}

#[test]
fn readdir_is_empty_once_the_offset_reaches_the_end() {
    let fs = filesystem();
    let mut db = store_with_root();
    add(&mut db, 1, "a", "a.txt", 1, "text/plain");
    add(&mut db, 1, "b", "b.txt", 1, "text/plain");
    assert_eq!(db.count_children(1), 2);
    assert_eq!(fs.readdir(&db, 1, 4).len(), 0);
    assert_eq!(fs.readdir(&db, 1, 5).len(), 0);
    assert_eq!(fs.readdir(&db, 1, i64::MAX).len(), 0);
    assert_eq!(fs.readdir(&db, 1, -1).len(), 0);
    assert_eq!(fs.readdir(&db, 1, 3).len(), 1);
    assert_eq!(fs.readdirplus(&db, 1, 4, 0).len(), 0);
    assert_eq!(fs.readdirplus(&db, 1, u64::MAX, 0).len(), 0);
    assert_eq!(fs.readdirplus(&db, 1, 3, 0).len(), 1);
    assert_eq!(fs.readdir(&db, 77, 2).len(), 0);
    assert_eq!(fs.readdir(&db, 77, 0).len(), 2);
}

#[test]
fn readdirplus_gives_attributes() {
    let fs = filesystem();
    let mut db = store_with_root();
    let y = add(&mut db, 1, "y", "y.gdoc", 0, DOCUMENT);
    let a = add(&mut db, 1, "a", "a.txt", 11, "text/plain");
    let all = fs.readdirplus(&db, 1, 0, 55);
    assert_eq!(all.len(), 4);
    assert_eq!(all[0].name, ".");
    assert_eq!(all[0].attr.ino, 1);
    assert_eq!(all[0].attr.kind, FileType::Directory);
    assert_eq!(all[0].attr.size, 4096);
    assert_eq!(all[1].name, "..");
    assert_eq!(all[1].inode, 1);
    assert_eq!(all[2].inode, a);
    assert_eq!(all[2].attr.size, 11);
    assert_eq!(all[2].offset, 3);
    assert_eq!(all[3].inode, y);
    assert_eq!(all[3].attr.size, generate_html("y", "y.gdoc", DOCUMENT).len() as u64);
    assert_eq!(all[3].offset, 4);
    for entry in &all {
        assert_eq!(entry.generation, 0);
        assert_eq!(entry.entry_ttl_secs, 1);
        assert_eq!(entry.attr_ttl_secs, 1);
    }
    let unknown = fs.readdirplus(&db, 77, 0, 55);
    assert_eq!(unknown.len(), 2);
    assert_eq!(unknown[0].attr.ino, 77);
    assert_eq!(unknown[0].attr.size, 4096);
    assert_eq!(unknown[0].attr.mtime.sec, 55);
    assert_eq!(unknown[0].attr.perm, 0o755);
}

#[test]
fn create_makes_an_empty_dirty_file() {
    let fs = filesystem();
    let mut db = store_with_root();
    let reply = fs.create_with_id(&mut db, 1, Some("new.txt"), 0o640, 0, "temp_1", 500).unwrap();
    let inode = db.lookup(1, "new.txt").unwrap();
    assert_eq!(reply.attr.ino, inode);
    assert_eq!(reply.attr.size, 0);
    assert_eq!(reply.attr.kind, FileType::RegularFile);
    assert_eq!(reply.attr.perm, 0o640);
    assert_eq!(reply.attr.mtime.sec, 500);
    assert_eq!((reply.ttl_secs, reply.generation, reply.fh, reply.flags), (1, 0, 0, 0));
    let attrs = db.get_attrs(inode, 0).unwrap();
    assert_eq!(attrs.size, 0);
    assert!(!attrs.is_dir);
    assert_eq!(attrs.mime_type.as_deref(), Some("application/octet-stream"));
    assert_eq!(db.sync_state(inode), Some((true, None)));
    assert_eq!(db.get_gdrive_id(inode).as_deref(), Some("temp_1"));
    assert_eq!(fs.getattr(&db, inode, 0).unwrap().attr.size, 0);
}

#[test]
fn create_refuses_what_it_cannot_place() {
    let fs = filesystem();
    let mut db = store_with_root();
    assert_eq!(
        fs.create_with_id(&mut db, 1, None, 0o644, 0, "temp_1", 5),
        Err(FsError::InvalidName)
    );
    assert_eq!(
        fs.create_with_id(&mut db, 42, Some("x"), 0o644, 0, "temp_1", 5),
        Err(FsError::Io)
    );
    assert_eq!(db.get_inode_by_gdrive_id("temp_1"), None);
    fs.create_with_id(&mut db, 1, Some("x"), 0o644, 0, "temp_1", 5).unwrap();
    assert_eq!(
        fs.create_with_id(&mut db, 1, Some("y"), 0o644, 0, "temp_1", 5),
        Err(FsError::Io)
    );
    assert_eq!(db.lookup(1, "y"), None);
    assert_eq!(db.export_inodes().len(), 2);
}

#[test]
fn create_draws_a_fresh_remote_id_each_time() {
    let fs = filesystem();
    let mut db = store_with_root();
    fs.create(&mut db, 1, Some("a"), 0o644, 0, 5).unwrap();
    fs.create(&mut db, 1, Some("b"), 0o644, 0, 5).unwrap();
    let a = db.get_gdrive_id(db.lookup(1, "a").unwrap()).unwrap();
    let b = db.get_gdrive_id(db.lookup(1, "b").unwrap()).unwrap();
    assert_ne!(a, b);
    for id in [&a, &b] {
        assert!(id.starts_with("temp_"));
        assert_eq!(id.len(), 41);
        assert_eq!(id.matches('-').count(), 4);
    }
}

#[test]
fn write_records_size_time_and_dirt() {
    let fs = filesystem();
    let mut db = store_with_root();
    let a = add(&mut db, 1, "x", "x.txt", 11, "text/plain");
    assert_eq!(fs.write_target(&db, a).as_deref(), Ok("x"));
    assert_eq!(fs.write_target(&db, 99), Err(FsError::NotFound));
    assert_eq!(fs.get_cache_path("x"), "/cache/x");
    let reply = fs.write(&mut db, a, 3, 11, 900).unwrap();
    assert_eq!(reply.written, 3);
    let attrs = db.get_attrs(a, 0).unwrap();
    assert_eq!(attrs.size, 11);
    assert_eq!(attrs.mtime, 900);
    assert_eq!(db.sync_state(a), Some((true, None)));
    assert_eq!(fs.write(&mut db, 99, 3, 11, 900), Err(FsError::NotFound));
    fs.write(&mut db, a, 1, u64::MAX, 901).unwrap();
    assert_eq!(db.get_attrs(a, 0).unwrap().size, i64::MAX);
}

#[test]
fn what_is_written_is_read() {
    let mut blob: Vec<u8> = b"hello world".to_vec();
    assert!(write_at(&mut blob, 5, &b"XYZ".to_vec()));
    assert_eq!(blob, b"helloXYZrld");
    assert_eq!(read_slice(&blob, 5, 3), b"XYZ");
    assert!(write_at(&mut blob, 14, &b"!".to_vec()));
    assert_eq!(blob, b"helloXYZrld\0\0\0!");
    assert_eq!(read_slice(&blob, 14, 1), b"!");
    assert!(!write_at(&mut blob, usize::MAX, &b"ab".to_vec()));
    assert_eq!(blob.len(), 15);
    let mut empty: Vec<u8> = Vec::new();
    assert!(write_at(&mut empty, 0, &Vec::new()));
    assert!(empty.is_empty());
}

#[test]
fn a_read_stops_at_the_end_of_the_file() {
    let data: Vec<u8> = (0u8..10).collect();
    assert_eq!(read_slice(&data, 8, 5), vec![8, 9]);
    assert_eq!(read_slice(&data, 0, 100), data);
    assert_eq!(read_slice(&data, 10, 5), Vec::<u8>::new());
    assert_eq!(read_slice(&data, u64::MAX, u32::MAX), Vec::<u8>::new());
    assert_eq!(read_slice(&data, 3, 0), Vec::<u8>::new());
    assert_eq!(read_slice(&Vec::new(), 0, 5), Vec::<u8>::new());
}

#[test]
fn an_empty_file_is_read_without_the_remote() {
    let fs = filesystem();
    let mut db = store_with_root();
    let a = add(&mut db, 1, "a", "a.txt", 0, "text/plain");
    assert!(matches!(fs.read(&db, a, 0, 4096, None), Ok(ReadPlan::Empty)));
    assert!(matches!(fs.read(&db, 99, 0, 4096, None), Err(FsError::NotFound)));
    let bare = db.get_or_create_inode("bare", 1).unwrap();
    assert!(matches!(fs.read(&db, bare, 0, 4096, None), Err(FsError::NotFound)));
}

#[test]
fn a_read_fetches_what_is_missing() {
    let fs = filesystem();
    let mut db = store_with_root();
    let size: i64 = 20 * 1024 * 1024;
    let v = add(&mut db, 1, "v", "v.mp4", size, "video/mp4");
    match fs.read(&db, v, 8_000_000, 65_536, None).unwrap() {
        ReadPlan::FromCache { remote_id, fetch, offset, length } => {
            assert_eq!(remote_id, "v");
            assert_eq!(fetch, vec![(8_000_000, 8_065_535)]);
            assert_eq!(offset, 8_000_000);
            assert_eq!(length, 65_536);
        }
        other => panic!("unexpected plan {:?}", other),
    }
    db.add_cached_chunk(v, 8_000_000, 8_065_535).unwrap();
    match fs.read(&db, v, 8_000_000, 65_536, Some(9_000_000)).unwrap() {
        ReadPlan::FromCache { fetch, .. } => assert!(fetch.is_empty()),
        other => panic!("unexpected plan {:?}", other),
    }
    assert_eq!(db.get_missing_ranges(v, 8_000_000, 8_065_535), vec![]);
    match fs.read(&db, v, 0, 100, Some(size as u64)).unwrap() {
        ReadPlan::FromCache { fetch, length, .. } => {
            assert!(fetch.is_empty());
            assert_eq!(length, 100);
        }
        other => panic!("unexpected plan {:?}", other),
    }
    match fs.read(&db, v, size as u64 - 10, 100, None).unwrap() {
        ReadPlan::FromCache { fetch, length, .. } => {
            assert_eq!(fetch, vec![(size as u64 - 10, size as u64 - 1)]);
            assert_eq!(length, 10);
        }
        other => panic!("unexpected plan {:?}", other),
    }
    match fs.read(&db, v, size as u64, 100, None).unwrap() {
        ReadPlan::FromCache { fetch, length, .. } => {
            assert!(fetch.is_empty());
            assert_eq!(length, 0);
        }
        other => panic!("unexpected plan {:?}", other),
    }
    assert!(fs.ensure_range_cached(&db, v, 5, 0, 100, None).is_empty());
    assert_eq!(fs.ensure_range_cached(&db, v, u64::MAX - 1, u32::MAX, u64::MAX, None), vec![(
        u64::MAX - 1,
        u64::MAX - 1
    )]);
}

#[test]
fn opening_a_film_fetches_ahead() {
    let fs = filesystem();
    let mut db = store_with_root();
    let small = add(&mut db, 1, "s", "s.mp3", 3_000_000, "audio/mpeg");
    let large = add(&mut db, 1, "l", "l.mp4", 10 * 1024 * 1024, "video/mp4");
    let text = add(&mut db, 1, "t", "t.txt", 3_000_000, "text/plain");
    let empty = add(&mut db, 1, "e", "e.png", 0, "image/png");
    let (reply, plan) = fs.open(&db, small, None, 0).unwrap();
    assert_eq!(reply, ReplyOpen { fh: 0, flags: 0 });
    assert_eq!(plan.kind, PrefetchKind::EntireFile);
    assert_eq!(plan.remote_id, "s");
    assert_eq!(plan.file_size, 3_000_000);
    let (_, plan) = fs.open(&db, large, Some(5), 0).unwrap();
    assert_eq!(plan.kind, PrefetchKind::HeadAndTail);
    assert_eq!(plan.file_size, 10 * 1024 * 1024);
    assert_eq!(fs.open(&db, small, Some(3_000_000), 0).unwrap().1.kind, PrefetchKind::Nothing);
    assert_eq!(fs.open(&db, text, None, 0).unwrap().1.kind, PrefetchKind::Nothing);
    assert_eq!(fs.open(&db, empty, None, 0).unwrap().1.kind, PrefetchKind::Nothing);
    assert_eq!(fs.open(&db, 1, None, 0).unwrap().1.kind, PrefetchKind::Nothing);
    assert!(matches!(fs.open(&db, 99, None, 0), Err(FsError::NotFound)));
    assert!(GDriveFS::is_multimedia_file("image/png"));
    assert!(!GDriveFS::is_multimedia_file("application/pdf"));
}

#[test]
fn a_whole_file_is_fetched_in_batches_of_four_pieces() {
    let mib: u64 = 1024 * 1024;
    assert_eq!(GDriveFS::prefetch_entire_file(0), Vec::<Vec<(u64, u64)>>::new());
    assert_eq!(GDriveFS::prefetch_entire_file(1), vec![vec![(0, 0)]]);
    assert_eq!(GDriveFS::prefetch_entire_file(5 * mib - 1), vec![vec![(0, 5 * mib - 2)]]);
    assert_eq!(
        GDriveFS::prefetch_entire_file(5 * mib),
        vec![vec![(0, 2 * mib - 1), (2 * mib, 4 * mib - 1), (4 * mib, 5 * mib - 1)]]
    );
    let batches = GDriveFS::prefetch_entire_file(9 * mib + 1);
    assert_eq!(batches.len(), 2);
    assert_eq!(batches[0].len(), 4);
    assert_eq!(batches[1], vec![(8 * mib, 9 * mib)]);
    let exact = GDriveFS::prefetch_entire_file(8 * mib);
    assert_eq!(exact.len(), 1);
    assert_eq!(exact[0][3], (6 * mib, 8 * mib - 1));
}

#[test]
fn head_and_tail_are_fetched_where_they_are_missing() {
    let fs = filesystem();
    let mut db = store_with_root();
    let size: u64 = 20 * 1024 * 1024;
    let v = add(&mut db, 1, "v", "v.mp4", size as i64, "video/mp4");
    let head = (0, 1024 * 1024 - 1);
    let tail = (size - 256 * 1024, size - 1);
    assert_eq!(fs.prefetch_headers_and_tail(&db, v, size), vec![head, tail]);
    db.add_cached_chunk(v, 0, 1024 * 1024 - 1).unwrap();
    assert_eq!(fs.prefetch_headers_and_tail(&db, v, size), vec![tail]);
    db.add_cached_chunk(v, tail.0, tail.1 - 1).unwrap();
    assert_eq!(fs.prefetch_headers_and_tail(&db, v, size), vec![tail]);
    db.add_cached_chunk(v, tail.1, tail.1).unwrap();
    assert_eq!(fs.prefetch_headers_and_tail(&db, v, size), vec![]);
    assert_eq!(fs.prefetch_headers_and_tail(&db, v, 0), vec![]);
    let other = add(&mut db, 1, "o", "o.mp4", 100, "video/mp4");
    assert_eq!(fs.prefetch_headers_and_tail(&db, other, 100), vec![(0, 99)]);
}

#[test]
fn setattr_changes_what_is_given() {
    let fs = filesystem();
    let mut db = store_with_root();
    let a = add(&mut db, 1, "a", "a.txt", 11, "text/plain");
    let only_mode = SetAttr { size: None, mtime: None, mode: Some(0o600) };
    assert!(fs.truncate_target(&db, a, only_mode).unwrap().is_none());
    let reply = fs.setattr(&mut db, a, only_mode, 0).unwrap();
    assert_eq!(reply.attr.perm, 0o600);
    assert_eq!(reply.attr.size, 11);
    assert_eq!(db.sync_state(a), None);
    let resize = SetAttr { size: Some(4), mtime: Some(77), mode: None };
    assert_eq!(fs.truncate_target(&db, a, resize).unwrap(), Some(("a".to_string(), 4)));
    let reply = fs.setattr(&mut db, a, resize, 0).unwrap();
    assert_eq!(reply.attr.size, 4);
    assert_eq!(reply.attr.mtime.sec, 77);
    assert_eq!(reply.attr.perm, 0o600);
    assert_eq!(reply.ttl_secs, 1);
    assert_eq!(db.sync_state(a), Some((true, None)));
    assert_eq!(fs.setattr(&mut db, 99, resize, 0), Err(FsError::NotFound));
    assert_eq!(fs.setattr(&mut db, 99, only_mode, 0), Err(FsError::NotFound));
    assert_eq!(fs.truncate_target(&db, 99, resize), Err(FsError::NotFound));
}

#[test]
fn unlink_hides_the_file_at_once() {
    let fs = filesystem();
    let mut db = store_with_root();
    let d = add(&mut db, 1, "a", "A", 4096, FOLDER);
    let x = add(&mut db, d, "x", "x.txt", 11, "text/plain");
    assert_eq!(fs.unlink(&mut db, d, Some("x.txt"), 1234), Ok(()));
    assert_eq!(fs.lookup(&db, d, Some("x.txt"), 0), Err(FsError::NotFound));
    assert!(db.has_tombstone("x"));
    assert_eq!(db.sync_state(x), Some((true, Some(1234))));
    assert_eq!(fs.unlink(&mut db, d, Some("x.txt"), 1234), Err(FsError::NotFound));
    assert_eq!(fs.unlink(&mut db, d, None, 1234), Err(FsError::InvalidName));
}

#[test]
fn rename_moves_the_file() {
    let fs = filesystem();
    let mut db = store_with_root();
    let d = add(&mut db, 1, "d", "dir", 4096, FOLDER);
    let a = add(&mut db, 1, "a", "a.txt", 11, "text/plain");
    assert_eq!(fs.rename(&mut db, 1, Some("a.txt"), d, Some("b.txt"), 9), Ok(()));
    assert_eq!(db.lookup(1, "a.txt"), None);
    assert_eq!(db.lookup(d, "b.txt"), Some(a));
    assert_eq!(db.sync_state(a), Some((true, None)));
    assert_eq!(
        fs.rename(&mut db, 1, Some("a.txt"), d, Some("c.txt"), 9),
        Err(FsError::NotFound)
    );
    assert_eq!(fs.rename(&mut db, d, None, d, Some("c.txt"), 9), Err(FsError::InvalidName));
    assert_eq!(fs.rename(&mut db, d, Some("b.txt"), d, None, 9), Err(FsError::InvalidName));
    assert_eq!(fs.rename(&mut db, d, Some("b.txt"), 99, Some("c.txt"), 9), Err(FsError::Io));
    assert_eq!(db.lookup(d, "b.txt"), Some(a));
}

#[test]
fn rename_soft_deletes_what_stands_at_the_destination() {
    let fs = filesystem();
    let mut db = store_with_root();
    let a = add(&mut db, 1, "a", "a.txt", 11, "text/plain");
    let b = add(&mut db, 1, "b", "b.txt", 11, "text/plain");
    assert_eq!(fs.rename(&mut db, 1, Some("a.txt"), 1, Some("b.txt"), 9), Ok(()));
    assert_eq!(db.lookup(1, "b.txt"), Some(a));
    assert_eq!(db.lookup(1, "a.txt"), None);
    assert!(db.has_tombstone("b"));
    assert_eq!(db.sync_state(b), Some((true, Some(9))));
    assert!(!db.has_tombstone("a"));
}

#[test]
fn rename_to_itself_keeps_the_file() {
    let fs = filesystem();
    let mut db = store_with_root();
    let a = add(&mut db, 1, "a", "a.txt", 11, "text/plain");
    assert_eq!(fs.rename(&mut db, 1, Some("a.txt"), 1, Some("a.txt"), 9), Ok(()));
    assert_eq!(db.lookup(1, "a.txt"), Some(a));
    assert!(!db.has_tombstone("a"));
    assert_eq!(db.sync_state(a), Some((true, None)));
}

#[test]
fn statfs_and_init_give_nominal_figures() {
    let fs = filesystem();
    let stat = fs.statfs();
    assert_eq!(stat.blocks, 1024 * 1024 * 1024);
    assert_eq!(stat.bfree, 512 * 1024 * 1024);
    assert_eq!(stat.bavail, 512 * 1024 * 1024);
    assert_eq!(stat.files, 1_000_000);
    assert_eq!(stat.ffree, 1_000_000);
    assert_eq!(stat.bsize, 4096);
    assert_eq!(stat.frsize, 4096);
    assert_eq!(stat.namelen, 255);
    assert_eq!(fs.init().max_write, 1024 * 1024);
}

#[test]
fn a_local_copy_is_cut_or_filled_with_zeros() {
    let mut blob: Vec<u8> = vec![1, 2, 3, 4];
    resize(&mut blob, 2);
    assert_eq!(blob, vec![1, 2]);
    resize(&mut blob, 5);
    assert_eq!(blob, vec![1, 2, 0, 0, 0]);
    resize(&mut blob, 5);
    assert_eq!(blob, vec![1, 2, 0, 0, 0]);
    resize(&mut blob, 0);
    assert!(blob.is_empty());
}
