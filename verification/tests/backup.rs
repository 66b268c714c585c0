use espanso_settings::calendar::utc_stamp;
use espanso_settings::backup::timestamp_label_for;
use espanso_settings::{
    BackupEntry, BackupError, BackupManifest, BackupService, CanonicalPath, EntryKind, ExportFacts,
    FolderFacts, PathPart, BACKUP_FORMAT, BACKUP_FORMAT_VERSION, BACKUP_MANIFEST_NAME,
};

fn entry(path: &str, relative: &str, kind: EntryKind, len: u64) -> BackupEntry {
    BackupEntry { path: path.to_string(), relative: relative.to_string(), kind, len }
}

fn canonical(text: &str) -> CanonicalPath {
    CanonicalPath {
        text: text.to_string(),
        components: text
            .split('/')
            .filter(|c| !c.is_empty())
            .map(|c| c.to_string())
            .collect(),
    }
}

fn absent() -> FolderFacts {
    FolderFacts { exists: false, is_dir: false, empty: Ok(true) }
}

#[test]
fn export_writes_a_recognisable_manifest_record() {
    let manifest = BackupService::manifest_for_export(
        "2023-11-14T22:13:20Z".to_string(),
        "/home/me/.config/espanso".to_string(),
        2,
        41,
    );
    assert_eq!(manifest.format, "espanso-backup");
    assert_eq!(manifest.format, BACKUP_FORMAT);
    assert_eq!(manifest.format_version, BACKUP_FORMAT_VERSION);
    assert_eq!(manifest.exported_at, "2023-11-14T22:13:20Z");
    assert_eq!(manifest.file_count, 2);
    assert_eq!(manifest.byte_count, 41);
    assert_eq!(manifest.includes, vec!["config".to_string(), "match".to_string()]);
    assert_eq!(BackupService::check_manifest(&manifest), Ok(()));
    assert_eq!(BACKUP_MANIFEST_NAME, "espanso-backup.json");
}

#[test]
fn default_export_names_and_labels_carry_the_time() {
    let name = BackupService::default_export_name();
    assert!(name.starts_with("espanso-backup-"));
    assert!(name.ends_with(".espanso-backup.zip"));
    let stamp = &name["espanso-backup-".len()..name.len() - ".espanso-backup.zip".len()];
    assert_eq!(stamp.len(), 13);
    assert_eq!(&stamp[8..9], "-");
    assert!(stamp[..8].chars().chain(stamp[9..].chars()).all(|c| c.is_ascii_digit()));
    let label = espanso_settings::backup::unix_timestamp_label();
    assert_eq!(label.len(), 20);
    assert!(label.ends_with('Z'));
    assert_eq!(&label[10..11], "T");
}

#[test]
fn export_checks_come_in_order() {
    let facts = |root_is_dir, archive_exists, archive_parent| ExportFacts {
        root_is_dir,
        archive_exists,
        archive_parent,
    };
    assert_eq!(
        BackupService::check_export(&facts(false, true, None)),
        Err(BackupError::MissingConfigRoot)
    );
    assert_eq!(
        BackupService::check_export(&facts(true, true, Some((false, false)))),
        Err(BackupError::ArchiveExists)
    );
    assert_eq!(
        BackupService::check_export(&facts(true, false, Some((false, false)))),
        Err(BackupError::MissingArchiveFolder)
    );
    assert_eq!(BackupService::check_export(&facts(true, false, Some((true, false)))), Ok(()));
    assert_eq!(BackupService::check_export(&facts(true, false, Some((false, true)))), Ok(()));
    assert_eq!(BackupService::check_export(&facts(true, false, None)), Ok(()));
}

#[test]
fn packing_names_entries_with_forward_slashes_and_counts_files() {
    let (names, files, bytes) = BackupService::pack_entries(&[
        entry("/cfg", "", EntryKind::Directory, 0),
        entry("/cfg/config", "config", EntryKind::Directory, 0),
        entry("/cfg/config/default.yml", "config\\default.yml", EntryKind::File, 10),
        entry("/cfg/match/base.yml", "match/base.yml", EntryKind::File, 31),
        entry("/cfg/socket", "socket", EntryKind::Other, 0),
    ])
    .unwrap();
    let listed: Vec<(&str, bool)> = names.iter().map(|e| (e.name.as_str(), e.is_dir)).collect();
    assert_eq!(
        listed,
        vec![("config/", true), ("config/default.yml", false), ("match/base.yml", false)]
    );
    assert_eq!(names[1].path, "/cfg/config/default.yml");
    assert_eq!(files, 2);
    assert_eq!(bytes, 41);
}

#[test]
fn packing_refuses_links_and_saturates_the_byte_count() {
    assert_eq!(
        BackupService::pack_entries(&[
            entry("/cfg/a.yml", "a.yml", EntryKind::File, 1),
            entry("/cfg/link", "link", EntryKind::Symlink, 0),
        ]),
        Err(BackupError::SymbolicLink("/cfg/link".to_string()))
    );
    let (_, files, bytes) = BackupService::pack_entries(&[
        entry("/a", "a", EntryKind::File, u64::MAX),
        entry("/b", "b", EntryKind::File, 5),
    ])
    .unwrap();
    assert_eq!(files, 2);
    assert_eq!(bytes, u64::MAX);
}

#[test]
fn import_rejects_a_non_empty_destination_record() {
    let not_empty = FolderFacts { exists: true, is_dir: true, empty: Ok(false) };
    let error = BackupService::check_import(true, true, &Ok(canonical("/dest")), &not_empty)
        .unwrap_err();
    assert!(error.message().contains("empty"), "got: {}", error.message());
}

#[test]
fn import_target_checks_come_in_order() {
    let dest = Ok(canonical("/data/dest"));
    assert_eq!(
        BackupService::check_import(false, false, &dest, &absent()),
        Err(BackupError::MissingArchive)
    );
    assert_eq!(
        BackupService::check_import(true, false, &dest, &absent()),
        Err(BackupError::DestinationNotAbsolute)
    );
    assert_eq!(
        BackupService::check_import(true, true, &Err("denied".to_string()), &absent()),
        Err(BackupError::Io("denied".to_string()))
    );
    let file = FolderFacts { exists: true, is_dir: false, empty: Ok(true) };
    assert_eq!(
        BackupService::check_import(true, true, &dest, &file),
        Err(BackupError::DestinationNotADirectory)
    );
    let unlisted = FolderFacts { exists: true, is_dir: true, empty: Err("io".to_string()) };
    assert_eq!(
        BackupService::check_import(true, true, &dest, &unlisted),
        Err(BackupError::Io("io".to_string()))
    );
    let empty = FolderFacts { exists: true, is_dir: true, empty: Ok(true) };
    assert_eq!(
        BackupService::check_import(true, true, &dest, &empty),
        Ok("/data/dest".to_string())
    );
    assert_eq!(
        BackupService::check_import(true, true, &dest, &absent()),
        Ok("/data/dest".to_string())
    );
}

fn manifest(format: &str, version: u32) -> BackupManifest {
    BackupManifest {
        format: format.to_string(),
        format_version: version,
        exported_at: String::new(),
        source_path_hint: String::new(),
        file_count: 0,
        byte_count: 0,
        includes: Vec::new(),
    }
}

#[test]
fn manifests_of_other_formats_or_newer_versions_are_refused() {
    assert_eq!(
        BackupService::check_manifest(&manifest("zip-thing", 1)),
        Err(BackupError::UnsupportedFormat("zip-thing".to_string()))
    );
    assert_eq!(
        BackupService::check_manifest(&manifest("espanso-backup", 2)),
        Err(BackupError::NewerFormat(2))
    );
    assert_eq!(BackupService::check_manifest(&manifest("espanso-backup", 0)), Ok(()));
    assert_eq!(
        BackupError::NewerFormat(2).message(),
        "backup format version 2 is newer than this Settings build supports (1)"
    );
    assert_eq!(
        BackupError::UnsupportedFormat("x".to_string()).message(),
        "unsupported backup format 'x'; expected 'espanso-backup'"
    );
}

#[test]
fn import_accepts_a_hand_zipped_wrapper_folder_record() {
    let (root, had_manifest) = BackupService::locate_config_root(
        "/staging",
        &None,
        false,
        &["/staging/espanso".to_string()],
    )
    .unwrap();
    assert_eq!(root, "/staging/espanso");
    assert!(!had_manifest);
}

#[test]
fn import_rejects_archives_without_a_config_folder_record() {
    let error = BackupService::locate_config_root("/staging", &None, false, &[]).unwrap_err();
    assert_eq!(error, BackupError::NoConfiguration);
    assert!(error.message().contains("config"), "got: {}", error.message());
    assert_eq!(
        BackupService::locate_config_root(
            "/staging",
            &None,
            false,
            &["/staging/a".to_string(), "/staging/b".to_string()]
        ),
        Err(BackupError::ManyConfigurations)
    );
}

#[test]
fn the_staging_folder_itself_wins_and_the_manifest_is_checked_first() {
    let ok = Some(Ok(manifest("espanso-backup", 1)));
    assert_eq!(
        BackupService::locate_config_root("/staging", &ok, true, &["/staging/x".to_string()]),
        Ok(("/staging".to_string(), true))
    );
    let newer = Some(Ok(manifest("espanso-backup", 3)));
    assert_eq!(
        BackupService::locate_config_root("/staging", &newer, true, &[]),
        Err(BackupError::NewerFormat(3))
    );
    let broken = Some(Err("expected value at line 1".to_string()));
    assert_eq!(
        BackupService::locate_config_root("/staging", &broken, true, &[]),
        Err(BackupError::Io("expected value at line 1".to_string()))
    );
}

#[test]
fn only_plain_entry_paths_are_unpacked() {
    assert_eq!(
        BackupService::entry_path_safe(&[PathPart::Normal, PathPart::CurDir, PathPart::Normal]),
        Ok(())
    );
    assert_eq!(
        BackupService::entry_path_safe(&[PathPart::Normal, PathPart::ParentDir]),
        Err(BackupError::UnsafeEntry)
    );
    assert_eq!(
        BackupService::entry_path_safe(&[PathPart::RootDir, PathPart::Normal]),
        Err(BackupError::UnsafeEntry)
    );
    assert_eq!(BackupService::entry_path_safe(&[PathPart::Prefix]), Err(BackupError::UnsafeEntry));
    assert_eq!(BackupService::entry_path_safe(&[]), Ok(()));
}

#[test]
fn export_names_stamp_the_utc_date_and_minute() {
    assert_eq!(
        BackupService::export_name_for(0),
        "espanso-backup-19700101-0000.espanso-backup.zip"
    );
    assert_eq!(
        BackupService::export_name_for(1_723_708_800),
        "espanso-backup-20240815-0800.espanso-backup.zip"
    );
    assert_eq!(
        BackupService::export_name_for(1_700_000_000),
        "espanso-backup-20231114-2213.espanso-backup.zip"
    );
}

#[test]
fn the_stamp_follows_the_gregorian_calendar() {
    assert_eq!(utc_stamp(68_169_600), "19720229-0000");
    assert_eq!(utc_stamp(951_782_400), "20000229-0000");
    assert_eq!(utc_stamp(4_102_444_799), "20991231-2359");
    assert_eq!(utc_stamp(253_402_300_799), "99991231-2359");
    assert_eq!(utc_stamp(253_402_300_800), "100000101-0000");
    assert!(utc_stamp(u64::MAX).ends_with("-0700"));
}

#[test]
fn timestamp_labels_are_iso_dates_in_utc() {
    assert_eq!(timestamp_label_for(0), "1970-01-01T00:00:00Z");
    assert_eq!(timestamp_label_for(1_700_000_000), "2023-11-14T22:13:20Z");
    assert_eq!(timestamp_label_for(951_782_399), "2000-02-28T23:59:59Z");
}
