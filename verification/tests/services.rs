use espanso_settings::folders::{is_same_folder, is_within, overlaps, staging_name};
use espanso_settings::{
    AdoptError, AdoptFacts, AdoptService, CanonicalPath, EntryKind, EspansoConfigValidator,
    FolderFacts, MigrationError, MigrationFacts, MigrationPlan, MigrationService, ScaffoldError,
    ScaffoldFacts, ScaffoldService, ValidationError, WalkedEntry,
};

fn canonical(text: &str) -> CanonicalPath {
    CanonicalPath {
        text: text.to_string(),
        components: text
            .split('/')
            .filter(|c| !c.is_empty())
            .map(|c| c.to_string())
            .collect(),
    }
}

fn folder(exists: bool, is_dir: bool, empty: Result<bool, String>) -> FolderFacts {
    FolderFacts { exists, is_dir, empty }
}

fn absent() -> FolderFacts {
    folder(false, false, Ok(true))
}

fn non_empty_dir() -> FolderFacts {
    folder(true, true, Ok(false))
}

// --- folders -------------------------------------------------------------

#[test]
fn containment_compares_whole_components() {
    let root = canonical("/data/espanso");
    assert!(is_within(&canonical("/data/espanso/config"), &root));
    assert!(is_within(&root, &root));
    assert!(!is_within(&canonical("/data/espanso-old"), &root));
    assert!(overlaps(&root, &canonical("/data")));
    assert!(!overlaps(&root, &canonical("/data/other")));
    assert!(is_same_folder(&root, &canonical("/data/espanso")));
    assert!(!is_same_folder(&root, &canonical("/data")));
}

#[test]
fn staging_names_carry_label_process_and_nonce() {
    assert_eq!(staging_name("dest", "import", 42, 7), "dest.import-42-7");
    assert_eq!(
        staging_name("espanso", "espanso-scaffold", 0, 1234567890123),
        "espanso.espanso-scaffold-0-1234567890123"
    );
}

// --- adopt ---------------------------------------------------------------

fn adopt_facts(selected: FolderFacts, destination: &str, has_config_dir: bool) -> AdoptFacts {
    AdoptFacts {
        selected_absolute: true,
        selected,
        destination: Ok(canonical(destination)),
        current: Some(Ok(canonical("/root/current"))),
        has_config_dir,
    }
}

#[test]
fn an_existing_configuration_is_accepted_for_adoption() {
    assert_eq!(
        AdoptService::check(&adopt_facts(non_empty_dir(), "/root/existing", true)),
        Ok("/root/existing".to_string())
    );
}

#[test]
fn empty_and_missing_folders_point_at_create() {
    let empty = adopt_facts(folder(true, true, Ok(true)), "/root/empty", false);
    assert_eq!(AdoptService::check(&empty), Err(AdoptError::Empty));
    let missing = adopt_facts(absent(), "/root/missing", false);
    let error = AdoptService::check(&missing).unwrap_err();
    assert_eq!(error, AdoptError::Empty);
    assert!(error.message().contains("Create new configuration"));
}

#[test]
fn overlapping_and_relative_directories_are_rejected() {
    let same = adopt_facts(non_empty_dir(), "/root/current", true);
    assert_eq!(AdoptService::check(&same), Err(AdoptError::AlreadyActive));
    let inside = adopt_facts(non_empty_dir(), "/root/current/config", true);
    assert_eq!(AdoptService::check(&inside), Err(AdoptError::Overlap));
    let mut relative = adopt_facts(non_empty_dir(), "/work/relative", true);
    relative.selected_absolute = false;
    assert_eq!(AdoptService::check(&relative), Err(AdoptError::NotAbsolute));
}

#[test]
fn non_empty_directories_without_a_config_folder_are_refused() {
    let foreign = adopt_facts(non_empty_dir(), "/root/foreign", false);
    let error = AdoptService::check(&foreign).unwrap_err();
    assert_eq!(error, AdoptError::NotAConfiguration);
    assert!(error.message().contains("config"), "message must name what is missing");
}

#[test]
fn adopt_reports_files_and_failed_queries() {
    let file = adopt_facts(folder(true, false, Ok(false)), "/root/file", false);
    assert_eq!(AdoptService::check(&file), Err(AdoptError::NotADirectory));
    let unlisted = adopt_facts(folder(true, true, Err("denied".to_string())), "/root/x", true);
    assert_eq!(AdoptService::check(&unlisted), Err(AdoptError::Io("denied".to_string())));
    let mut no_current = adopt_facts(non_empty_dir(), "/root/current", true);
    no_current.current = None;
    assert_eq!(AdoptService::check(&no_current), Ok("/root/current".to_string()));
}

// --- scaffold ------------------------------------------------------------

fn scaffold_facts(destination: &str, folder: FolderFacts) -> ScaffoldFacts {
    ScaffoldFacts {
        destination_absolute: true,
        destination: Ok(canonical(destination)),
        folder,
        current: Some(Ok(canonical("/root/current"))),
    }
}

#[test]
fn scaffold_preflight_accepts_empty_or_missing_directories() {
    let plan = ScaffoldService::check(&scaffold_facts("/root/missing", absent())).unwrap();
    assert_eq!(plan.destination, "/root/missing");
    assert!(ScaffoldService::check(&scaffold_facts("/root/empty", folder(true, true, Ok(true))))
        .is_ok());
}

#[test]
fn scaffold_preflight_rejects_non_empty_files_and_overlapping_directories() {
    assert_eq!(
        ScaffoldService::check(&scaffold_facts("/root/non-empty", non_empty_dir())),
        Err(ScaffoldError::NotEmpty)
    );
    assert_eq!(
        ScaffoldService::check(&scaffold_facts("/root/a-file", folder(true, false, Ok(false)))),
        Err(ScaffoldError::NotADirectory)
    );
    assert_eq!(
        ScaffoldService::check(&scaffold_facts("/root/current", folder(true, true, Ok(true)))),
        Err(ScaffoldError::Overlap)
    );
    assert_eq!(
        ScaffoldService::check(&scaffold_facts("/root/current/child", absent())),
        Err(ScaffoldError::Overlap)
    );
    let mut relative = scaffold_facts("/work/relative", absent());
    relative.destination_absolute = false;
    assert_eq!(ScaffoldService::check(&relative), Err(ScaffoldError::NotAbsolute));
    assert_eq!(
        ScaffoldError::NotEmpty.message(),
        "the selected directory is not empty; create a new empty folder and select it"
    );
}

// --- migration -----------------------------------------------------------

fn walked(relative: &str, kind: EntryKind, len: u64) -> WalkedEntry {
    WalkedEntry { relative: relative.to_string(), kind, len }
}

fn migration_facts(destination: &str, destination_folder: FolderFacts) -> MigrationFacts {
    MigrationFacts {
        source_absolute: true,
        destination_absolute: true,
        source_is_dir: true,
        source: Ok(canonical("/root/source")),
        destination: Ok(canonical(destination)),
        destination_folder,
        entries: Ok(vec![
            walked("", EntryKind::Directory, 0),
            walked("one.yml", EntryKind::File, 3),
            walked("nested", EntryKind::Directory, 0),
            walked("nested/two.yml", EntryKind::File, 5),
        ]),
    }
}

#[test]
fn migration_preflight_counts_files_and_rejects_unsafe_destinations() {
    let plan = MigrationService::check(&migration_facts("/root/destination", absent())).unwrap();
    assert_eq!(plan.file_count, 2);
    assert_eq!(plan.byte_count, 8);
    assert!(plan.conflicts.is_empty());
    assert_eq!(plan.source, "/root/source");
    assert_eq!(plan.destination, "/root/destination");

    assert_eq!(
        MigrationService::check(&migration_facts("/root/source", folder(true, true, Ok(false)))),
        Err(MigrationError::Overlap)
    );
    assert_eq!(
        MigrationService::check(&migration_facts("/root/source/child", absent())),
        Err(MigrationError::Overlap)
    );
    assert_eq!(
        MigrationService::check(&migration_facts("/root/non-empty", non_empty_dir())),
        Err(MigrationError::NotEmpty)
    );
}

#[test]
fn migration_lists_links_and_refuses_to_start_with_them() {
    let mut facts = migration_facts("/root/destination", absent());
    facts.entries = Ok(vec![
        walked("a.yml", EntryKind::File, 1),
        walked("link", EntryKind::Symlink, 0),
    ]);
    let plan = MigrationService::check(&facts).unwrap();
    assert_eq!(plan.conflicts, vec!["link".to_string()]);
    assert_eq!(MigrationService::ready(&plan, false), Err(MigrationError::UnsupportedLinks));
    let clean = MigrationPlan {
        source: "/a".to_string(),
        destination: "/b".to_string(),
        file_count: 0,
        byte_count: 0,
        conflicts: Vec::new(),
    };
    assert_eq!(MigrationService::ready(&clean, true), Err(MigrationError::StagingExists));
    assert_eq!(MigrationService::ready(&clean, false), Ok(()));
}

#[test]
fn migration_checks_paths_before_walking() {
    let mut relative = migration_facts("/root/destination", absent());
    relative.destination_absolute = false;
    assert_eq!(MigrationService::check(&relative), Err(MigrationError::NotAbsolute));
    let mut missing = migration_facts("/root/destination", absent());
    missing.source_is_dir = false;
    assert_eq!(MigrationService::check(&missing), Err(MigrationError::MissingSource));
    let mut unwalkable = migration_facts("/root/destination", absent());
    unwalkable.entries = Err("permission denied".to_string());
    assert_eq!(
        MigrationService::check(&unwalkable),
        Err(MigrationError::Io("permission denied".to_string()))
    );
    assert_eq!(
        MigrationService::check(&migration_facts("/root/file", folder(true, false, Ok(true)))),
        Err(MigrationError::NotADirectory)
    );
}

#[test]
fn the_validator_accepts_only_a_clean_load() {
    assert_eq!(EspansoConfigValidator::verdict(Ok(0)), Ok(()));
    let error = EspansoConfigValidator::verdict(Ok(2)).unwrap_err();
    assert_eq!(error, ValidationError::NonFatalErrors(2));
    assert_eq!(
        error.message(),
        "copied configuration contains 2 parsing or validation error set(s)"
    );
    let rejected = EspansoConfigValidator::verdict(Err("bad yaml".to_string())).unwrap_err();
    assert_eq!(rejected, ValidationError::Rejected("bad yaml".to_string()));
    assert_eq!(rejected.message(), "Espanso rejected the copied configuration");
}

#[test]
fn scaffold_reports_failed_queries() {
    let mut orphan = scaffold_facts("/root/x", absent());
    orphan.destination = Err("destination parent does not exist".to_string());
    assert_eq!(
        ScaffoldService::check(&orphan),
        Err(ScaffoldError::Io("destination parent does not exist".to_string()))
    );
    let mut no_current = scaffold_facts("/root/current", absent());
    no_current.current = None;
    assert!(ScaffoldService::check(&no_current).is_ok());
    let mut broken_current = scaffold_facts("/root/new", absent());
    broken_current.current = Some(Err("unable to canonicalize the current configuration directory".to_string()));
    assert_eq!(
        ScaffoldService::check(&broken_current),
        Err(ScaffoldError::Io("unable to canonicalize the current configuration directory".to_string()))
    );
}
