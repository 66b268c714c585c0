//! The logic of espanso's Settings window: the matches it owns and their
//! metadata, the window's state machine, the folder actions (open, create,
//! copy, back up, restore) and the header patch the build applies.
use vstd::prelude::*;

pub mod calendar;
mod clock;
mod text;
pub mod adopt;
pub mod backup;
pub mod executor;
pub mod folders;
pub mod inventory;
pub mod location;
pub mod matches;
pub mod meta;
pub mod migration;
pub mod model;
pub mod scaffold;
pub mod window;
pub mod wx_gdiplus;

pub use adopt::{AdoptError, AdoptFacts, AdoptPlan, AdoptService};
pub use backup::{
    ArchiveEntry, BackupEntry, BackupError, BackupManifest, BackupService, ExportFacts,
    ExportSummary, ImportPlan, PathPart, BACKUP_FORMAT, BACKUP_FORMAT_VERSION, BACKUP_MANIFEST_NAME,
};
pub use executor::{SettingsExecutor, SettingsHandler};
pub use folders::{CanonicalPath, FolderFacts};
pub use inventory::{describe, external_matches, ExternalMatch, ScanMatch, ScannedFile};
pub use location::{
    accept_stored_location, resolve_config_location, validate_directory, ConfigLocationStore,
    ConfigPathSource, DirectoryCheck, LocationError, ResolvedConfigLocation,
    LOCATION_FILE_VERSION,
};
pub use matches::{
    check_external_triggers, matches_from_stored, meta_document_for_save, plan_save,
    stored_from_matches, validate_matches, ExternalTriggers, MatchError, SavePlan, StoredMatch,
    UiMatch, UiMatchRepository, MANAGED_HEADER,
};
pub use meta::{
    create_category, document_from_matches, next_category_id, validate_document, Category,
    MatchMeta, MatchMetaMap, MetaError, UiMetaDocument, UiMetaStore,
};
pub use migration::{
    EntryKind, EspansoConfigValidator, MigrationError, MigrationFacts, MigrationPlan,
    MigrationService, ValidationError, WalkedEntry,
};
pub use model::{CategoryFilter, ModelEffect, ModelMessage, SettingsModel, SettingsTab};
pub use scaffold::{ConfigTemplates, ScaffoldError, ScaffoldFacts, ScaffoldPlan, ScaffoldService};
pub use wx_gdiplus::patch_setup;

verus! {

#[verifier::external_type_specification]
#[verifier::external_body]
pub struct ExPathBuf(std::path::PathBuf);

/// The folders espanso runs with.
#[derive(Debug, PartialEq, Eq)]
pub struct SettingsPaths {
    pub config: std::path::PathBuf,
    pub packages: std::path::PathBuf,
    pub runtime: std::path::PathBuf,
}

/// What the Settings window is opened with.
#[derive(Debug, PartialEq, Eq)]
pub struct SettingsLaunchOptions {
    pub paths: SettingsPaths,
    pub location_store_path: std::path::PathBuf,
    pub config_override_source: ConfigPathSource,
}

/// The options the `settings` subcommand opens the window with: the paths
/// espanso resolved, the file that persists the chosen location, and what
/// chose the configuration folder, the platform default when nothing did.
pub fn launch_options(
    paths: SettingsPaths,
    location_store_path: std::path::PathBuf,
    source: Option<ConfigPathSource>,
) -> (o: SettingsLaunchOptions)
    ensures
        o.paths == paths,
        o.location_store_path == location_store_path,
        o.config_override_source == (match source {
            Some(s) => s,
            None => ConfigPathSource::PlatformDefault,
        }),
{
    let config_override_source = match source {
        Some(s) => s,
        None => ConfigPathSource::PlatformDefault,
    };
    SettingsLaunchOptions { paths, location_store_path, config_override_source }
}

/// The exit code of the `settings` subcommand: 0 when the window ran, 1
/// when it could not be opened.
pub fn settings_exit_code(outcome: &Result<(), String>) -> (code: i32)
    ensures
        code == (if outcome is Ok { 0i32 } else { 1i32 }),
{
    match outcome {
        Ok(()) => 0,
        Err(_) => 1,
    }
}

/// Opens the Settings window. This library is built without a window
/// toolkit, so the call reports that and opens nothing.
pub fn run(options: SettingsLaunchOptions) -> (r: Result<(), String>)
    ensures
        r matches Err(m) && m@ == "espanso-settings was built without the ui feature"@,
{
    proof {
        reveal_strlit("espanso-settings was built without the ui feature");
    }
    let _ = options;
    Err(crate::text::owned("espanso-settings was built without the ui feature"))
}

} // verus!
