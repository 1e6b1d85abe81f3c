use gdrivexp::auth::keyring::TokenStorage;
use gdrivexp::calendar::{civil_from_days, CivilDate};
use gdrivexp::db::repository::MetadataRepository;
use gdrivexp::db::schema::{
    apply_migrations, dedupe_tombstones, MigrationStep, Schema, TombstoneKey, TombstoneRecord,
};
use gdrivexp::gui::history::{ActionEntry, ActionHistory, ActionType};
use gdrivexp::gui::tray::{icon_name, menu, tool_tip, MenuAction, MenuEntry};
use gdrivexp::utils::mount::{is_mounted, mentions};
use gdrivexp::ipc::server::{get_file_status, get_sync_state, resolve_path_to_inode, IpcServer};
use gdrivexp::ipc::{
    encode_frame, frame_length, get_socket_path, FrameError, IpcRequest, IpcResponse, SyncStatus,
};
use gdrivexp::text::{
    append_padded, decimal_string, lex_less, skip_chars, split_pieces, starts_with, str_eq,
    to_chars,
};

#[test]
fn the_history_keeps_the_newest_fifty() {
    let mut history = ActionHistory::new();
    assert!(history.all().is_empty());
    for i in 0..60u64 {
        history.log(ActionType::Sync, format!("entry {}", i), i);
    }
    let all = history.all();
    assert_eq!(all.len(), 50);
    assert_eq!(all[0].description, "entry 59");
    assert_eq!(all[0].timestamp, 59);
    assert_eq!(all[49].description, "entry 10");
    let recent = history.recent(3);
    assert_eq!(recent.len(), 3);
    assert_eq!(recent[2].description, "entry 57");
    assert_eq!(history.recent(0).len(), 0);
    assert_eq!(history.recent(1000).len(), 50);
    history.push(ActionEntry::new(ActionType::Error, "last".to_string(), 7));
    assert_eq!(history.all()[0].action_type, ActionType::Error);
    assert_eq!(history.all().len(), 50);
    assert_eq!(history.all()[49].description, "entry 11");
}

#[test]
fn every_action_has_its_symbol() {
    assert_eq!(ActionType::Sync.emoji(), "🔄");
    assert_eq!(ActionType::Upload.emoji(), "📤");
    assert_eq!(ActionType::Download.emoji(), "📥");
    assert_eq!(ActionType::Create.emoji(), "✨");
    assert_eq!(ActionType::Delete.emoji(), "🗑️");
    assert_eq!(ActionType::Conflict.emoji(), "⚠️");
    assert_eq!(ActionType::Error.emoji(), "❌");
}

#[test]
fn the_menu_says_how_long_ago() {
    let entry = ActionEntry::new(ActionType::Upload, "a.txt".to_string(), 1000);
    assert_eq!(entry.format_for_menu(1000), "📤 a.txt (ahora)");
    assert_eq!(entry.format_for_menu(1059), "📤 a.txt (ahora)");
    assert_eq!(entry.format_for_menu(1060), "📤 a.txt (1m)");
    assert_eq!(entry.format_for_menu(1000 + 3599), "📤 a.txt (59m)");
    assert_eq!(entry.format_for_menu(1000 + 3600), "📤 a.txt (1h)");
    assert_eq!(entry.format_for_menu(1000 + 25 * 3600), "📤 a.txt (25h)");
    assert_eq!(entry.format_for_menu(5), "📤 a.txt (ahora)");
    let copy = entry.duplicate();
    assert_eq!(copy.timestamp, 1000);
    assert_eq!(copy.description, "a.txt");
}

#[test]
fn the_token_storage_names_its_entry() {
    let storage = TokenStorage::new();
    assert_eq!(storage.service(), "org.gnome.FedoraDrive");
    assert_eq!(storage.account(), "refresh_token");
    assert_eq!(
        storage.clear_all_credentials(),
        vec![("org.gnome.FedoraDrive".to_string(), "refresh_token".to_string())]
    );
}

#[test]
fn the_socket_lives_in_the_runtime_directory() {
    assert_eq!(get_socket_path(1000), "/run/user/1000/gdrivexp.sock");
    assert_eq!(get_socket_path(0), "/run/user/0/gdrivexp.sock");
    assert_eq!(get_socket_path(u32::MAX), "/run/user/4294967295/gdrivexp.sock");
}

#[test]
fn frames_carry_their_length() {
    assert_eq!(frame_length([0, 0, 0, 0]), Ok(0));
    assert_eq!(frame_length([0, 0, 1, 2]), Ok(258));
    assert_eq!(frame_length([0, 0, 16, 0]), Ok(4096));
    assert_eq!(frame_length([0, 0, 16, 1]), Err(FrameError::TooLarge));
    assert_eq!(frame_length([255, 255, 255, 255]), Err(FrameError::TooLarge));
    assert_eq!(frame_length([1, 0, 0, 0]), Err(FrameError::TooLarge));
    assert_eq!(encode_frame(&vec![7, 8, 9]), Ok(vec![0, 0, 0, 3, 7, 8, 9]));
    assert_eq!(encode_frame(&Vec::new()), Ok(vec![0, 0, 0, 0]));
    let long = encode_frame(&vec![1u8; 70_000]).unwrap();
    assert_eq!(&long[..4], &[0, 1, 17, 112]);
    assert_eq!(long.len(), 70_004);
    let header = [long[0], long[1], long[2], long[3]];
    assert_eq!(header, 70_000u32.to_be_bytes());
}

fn small_tree() -> (MetadataRepository, u64, u64) {
    let mut db = MetadataRepository::new();
    db.ensure_root(1).unwrap();
    let dir = db.get_or_create_inode("d", 1).unwrap();
    db.upsert_dentry(1, dir, "docs").unwrap();
    let file = db.get_or_create_inode("f", 1).unwrap();
    db.upsert_dentry(dir, file, "a b.txt").unwrap();
    (db, dir, file)
}

#[test]
fn a_path_leads_to_an_inode() {
    let (db, dir, file) = small_tree();
    assert_eq!(resolve_path_to_inode(&db, ""), Some(1));
    assert_eq!(resolve_path_to_inode(&db, "/"), Some(1));
    assert_eq!(resolve_path_to_inode(&db, "docs"), Some(dir));
    assert_eq!(resolve_path_to_inode(&db, "/docs//a b.txt/"), Some(file));
    assert_eq!(resolve_path_to_inode(&db, "docs/missing"), None);
    assert_eq!(resolve_path_to_inode(&db, "a b.txt"), None);
}

#[test]
fn the_status_of_a_file_follows_its_sync_state() {
    let (mut db, dir, file) = small_tree();
    let mount = "/home/u/GoogleDrive";
    assert_eq!(get_file_status(&db, mount, "/home/u/GoogleDrive/docs/a b.txt"), SyncStatus::Synced);
    assert_eq!(
        get_file_status(&db, mount, "file:///home/u/GoogleDrive/docs/a b.txt"),
        SyncStatus::Synced
    );
    assert_eq!(get_file_status(&db, mount, "/home/u/GoogleDrive"), SyncStatus::Synced);
    assert_eq!(get_file_status(&db, mount, "/home/u/Other/docs"), SyncStatus::Unknown);
    assert_eq!(get_file_status(&db, mount, "/home/u/GoogleDrive/nope"), SyncStatus::Unknown);
    assert_eq!(get_file_status(&db, mount, ""), SyncStatus::Unknown);
    db.mark_dirty(file).unwrap();
    assert_eq!(get_file_status(&db, mount, "/home/u/GoogleDrive/docs/a b.txt"), SyncStatus::Pending);
    assert_eq!(get_sync_state(&db, file), SyncStatus::Pending);
    db.mark_clean(file);
    assert_eq!(get_sync_state(&db, file), SyncStatus::Synced);
    db.restore_sync(dir, false, 0, None, Some(5)).unwrap();
    assert_eq!(get_sync_state(&db, dir), SyncStatus::Pending);
    assert_eq!(get_sync_state(&db, 99), SyncStatus::Synced);
}

#[test]
fn the_server_answers_requests() {
    let (mut db, _, file) = small_tree();
    db.mark_dirty(file).unwrap();
    let server = IpcServer::new("/run/user/1/gdrivexp.sock".to_string(), "/mnt".to_string());
    assert!(matches!(server.handle_request(&db, &IpcRequest::Ping), IpcResponse::Pong));
    let ask = IpcRequest::GetFileStatus { path: "/mnt/docs/a b.txt".to_string() };
    assert!(matches!(
        server.handle_request(&db, &ask),
        IpcResponse::FileStatus(SyncStatus::Pending)
    ));
    let outside = IpcRequest::GetFileStatus { path: "/tmp/x".to_string() };
    assert!(matches!(
        server.handle_request(&db, &outside),
        IpcResponse::FileStatus(SyncStatus::Unknown)
    ));
}

#[test]
fn dates_follow_the_gregorian_calendar() {
    let date = |year, month, day| CivilDate { year, month, day };
    assert_eq!(civil_from_days(0), date(1970, 1, 1));
    assert_eq!(civil_from_days(30), date(1970, 1, 31));
    assert_eq!(civil_from_days(31), date(1970, 2, 1));
    assert_eq!(civil_from_days(58), date(1970, 2, 28));
    assert_eq!(civil_from_days(59), date(1970, 3, 1));
    assert_eq!(civil_from_days(364), date(1970, 12, 31));
    assert_eq!(civil_from_days(365), date(1971, 1, 1));
    assert_eq!(civil_from_days(789), date(1972, 2, 29));
    assert_eq!(civil_from_days(11_016), date(2000, 2, 29));
    assert_eq!(civil_from_days(19_737), date(2024, 1, 15));
    assert_eq!(civil_from_days(47_540), date(2100, 2, 28));
    assert_eq!(civil_from_days(47_541), date(2100, 3, 1));
    assert_eq!(civil_from_days(146_097), date(2370, 1, 1));
    assert_eq!(civil_from_days(146_096), date(2369, 12, 31));
    let far = civil_from_days(u64::MAX / 86_400);
    assert!(far.year > 500_000_000_000);
    assert!(far.month >= 1 && far.month <= 12);
}

#[test]
fn migrations_are_planned_by_what_is_missing() {
    let current = Schema {
        sync_has_deleted_at: true,
        sync_has_remote_md5: true,
        sync_deleted_index: true,
        has_chunk_table: true,
        tombstone_key: TombstoneKey::Child,
    };
    assert_eq!(apply_migrations(&current), Vec::<MigrationStep>::new());
    let oldest = Schema {
        sync_has_deleted_at: false,
        sync_has_remote_md5: false,
        sync_deleted_index: false,
        has_chunk_table: false,
        tombstone_key: TombstoneKey::ParentAndName,
    };
    assert_eq!(
        apply_migrations(&oldest),
        vec![
            MigrationStep::AddSyncDeletedAt,
            MigrationStep::AddSyncRemoteMd5,
            MigrationStep::CreateSyncDeletedIndex,
            MigrationStep::CreateChunkTable,
            MigrationStep::RebuildTombstones
        ]
    );
    let partly = Schema { sync_has_remote_md5: false, has_chunk_table: false, ..current };
    assert_eq!(
        apply_migrations(&partly),
        vec![MigrationStep::AddSyncRemoteMd5, MigrationStep::CreateChunkTable]
    );
}

#[test]
fn the_first_tombstone_of_a_child_is_kept() {
    let row = |parent, child, name: &str, at| TombstoneRecord {
        parent_inode: parent,
        child_inode: child,
        name: name.to_string(),
        deleted_at: at,
    };
    let old = vec![row(1, 5, "a", 10), row(2, 6, "b", 20), row(3, 5, "c", 30), row(1, 6, "d", 40)];
    let kept = dedupe_tombstones(&old);
    assert_eq!(kept.len(), 2);
    assert_eq!((kept[0].child_inode, kept[0].name.as_str(), kept[0].deleted_at), (5, "a", 10));
    assert_eq!((kept[1].child_inode, kept[1].parent_inode), (6, 2));
    let again = dedupe_tombstones(&kept);
    assert_eq!(again.len(), 2);
    assert_eq!(again[1].name, "b");
    assert!(dedupe_tombstones(&Vec::new()).is_empty());
}

#[test]
fn strings_are_compared_and_split() {
    assert!(str_eq("añ", "añ"));
    assert!(!str_eq("a", "A"));
    assert!(starts_with("temp_1", "temp_"));
    assert!(starts_with("temp_", "temp_"));
    assert!(!starts_with("temp", "temp_"));
    assert!(starts_with("x", ""));
    assert!(starts_with("ñandú", "ñ"));
    assert_eq!(to_chars("aé✨"), vec!['a', 'é', '✨']);
    assert!(lex_less("a", "b"));
    assert!(lex_less("", "a"));
    assert!(lex_less("a", "aa"));
    assert!(lex_less("Z", "a"));
    assert!(lex_less("z", "é"));
    assert!(!lex_less("a", "a"));
    assert!(!lex_less("b", "a"));
    assert!(!lex_less("", ""));
    assert_eq!(split_pieces("/a//b/", '/'), vec!["a", "b"]);
    assert_eq!(split_pieces("a", '/'), vec!["a"]);
    assert_eq!(split_pieces("", '/'), Vec::<String>::new());
    assert_eq!(split_pieces("///", '/'), Vec::<String>::new());
    assert_eq!(split_pieces("ñ/✨", '/'), vec!["ñ", "✨"]);
    assert_eq!(skip_chars("ñandú", 1), "andú");
    assert_eq!(skip_chars("abc", 3), "");
    assert_eq!(skip_chars("abc", 9), "");
    assert_eq!(skip_chars("abc", 0), "abc");
}

#[test]
fn numbers_are_written_in_decimal() {
    assert_eq!(decimal_string(0), "0");
    assert_eq!(decimal_string(7), "7");
    assert_eq!(decimal_string(10), "10");
    assert_eq!(decimal_string(1_234_567_890), "1234567890");
    assert_eq!(decimal_string(u64::MAX), "18446744073709551615");
    let mut text = String::from("x");
    append_padded(&mut text, 7, 2);
    append_padded(&mut text, 42, 2);
    append_padded(&mut text, 123, 2);
    append_padded(&mut text, 0, 4);
    append_padded(&mut text, 5, 0);
    assert_eq!(text, "x074212300005");
}

fn labels(items: &[MenuEntry]) -> Vec<String> {
    items
        .iter()
        .map(|item| match item {
            MenuEntry::Info(text) => format!("i:{}", text),
            MenuEntry::Separator => "-".to_string(),
            MenuEntry::Action(action, text) => format!("{:?}:{}", action, text),
            MenuEntry::PauseToggle { label, checked } => format!("{}:{}", checked, label),
        })
        .collect()
}

#[test]
fn the_menu_shows_the_newest_ten() {
    let mut history = ActionHistory::new();
    let fixed = vec![
        "-",
        "OpenPanel:Abrir Panel",
        "OpenFiles:Abrir en Archivos",
        "-",
        "true:Pausar sincronización",
        "-",
        "Quit:Salir",
    ];
    let empty = menu(&history, true, 0);
    let mut want = vec!["i:Sin actividad reciente"];
    want.extend(fixed.iter());
    assert_eq!(labels(&empty), want);
    for i in 0..12u64 {
        history.log(ActionType::Create, format!("f{}", i), 100);
    }
    let full = menu(&history, false, 100 + 120);
    assert_eq!(full.len(), 17);
    let shown = labels(&full);
    assert_eq!(shown[0], "i:✨ f11 (2m)");
    assert_eq!(shown[9], "i:✨ f2 (2m)");
    assert_eq!(shown[10], "-");
    assert_eq!(shown[14], "false:Pausar sincronización");
    assert!(matches!(full[16], MenuEntry::Action(MenuAction::Quit, _)));
    assert_eq!(icon_name(true), "folder-cloud-offline");
    assert_eq!(icon_name(false), "folder-cloud");
    assert_eq!(tool_tip(true), "Sincronización pausada");
    assert_eq!(tool_tip(false), "Sincronizando");
}

#[test]
fn a_mount_is_detected_in_three_ways() {
    assert!(is_mounted(true, true, None, false));
    assert!(!is_mounted(true, false, None, false));
    assert!(is_mounted(false, false, Some(107), false));
    assert!(!is_mounted(false, true, Some(2), false));
    assert!(!is_mounted(true, false, Some(107), false));
    assert!(!is_mounted(false, false, None, false));
    assert!(is_mounted(false, false, None, true));
    assert!(is_mounted(true, false, None, true));
    let mounts = "proc /proc proc rw 0 0\nfedoradrive /home/u/GoogleDrive fuse rw 0 0\n";
    assert!(mentions(mounts, "/home/u/GoogleDrive"));
    assert!(mentions(mounts, "/proc"));
    assert!(!mentions(mounts, "/home/u/Other"));
    assert!(!mentions(mounts, "0 0\nfedoradrive"));
    assert!(mentions(mounts, ""));
    assert!(!mentions("", "x"));
    assert!(mentions("", ""));
    assert!(mentions("añb", "ñ"));
}
