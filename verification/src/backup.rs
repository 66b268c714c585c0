//! Portable backups: a configuration folder packed into a zip archive with a
//! manifest, and an archive unpacked into an empty folder.
use vstd::prelude::*;
use crate::adopt::AdoptPlan;
use crate::calendar::{is_date_of, iso_text, stamp_text, utc_date_time, utc_stamp};
use crate::clock::unix_secs;
use crate::folders::{destination_fault, CanonicalPath, DestinationFault, FolderFacts};
use crate::migration::EntryKind;
use crate::text::{
    decimal, forward_slashes, owned, push_decimal, push_str, same_text, with_forward_slashes,
};

verus! {

/// The name of the manifest entry in an archive.
pub const BACKUP_MANIFEST_NAME: &'static str = "espanso-backup.json";

/// The `format` every manifest Settings writes carries.
pub const BACKUP_FORMAT: &'static str = "espanso-backup";

/// The newest manifest version this library reads and the one it writes.
pub const BACKUP_FORMAT_VERSION: u32 = 1;

/// Written into every archive Settings produces so Import can recognise it.
#[derive(Debug, PartialEq, Eq)]
pub struct BackupManifest {
    pub format: String,
    pub format_version: u32,
    pub exported_at: String,
    pub source_path_hint: String,
    pub file_count: usize,
    pub byte_count: u64,
    pub includes: Vec<String>,
}

#[derive(Debug, PartialEq, Eq)]
pub struct ExportSummary {
    pub archive: String,
    pub file_count: usize,
    pub byte_count: u64,
}

/// A portable archive that has been unpacked and checked but not yet published.
#[derive(Debug, PartialEq, Eq)]
pub struct ImportPlan {
    pub archive: String,
    pub destination: String,
    /// Temporary folder holding the extracted archive.
    pub staging_root: String,
    /// The folder under `staging_root` that is the real configuration root
    /// (`staging_root` itself, or its single child when the zip had a wrapper).
    pub config_root_in_staging: String,
    pub adopt: AdoptPlan,
    pub had_manifest: bool,
}

#[derive(Debug, PartialEq, Eq)]
pub enum BackupError {
    MissingConfigRoot,
    ArchiveExists,
    MissingArchiveFolder,
    /// The path of the link met while packing.
    SymbolicLink(String),
    MissingArchive,
    DestinationNotAbsolute,
    DestinationNotADirectory,
    DestinationNotEmpty,
    StagingExists,
    UnsafeEntry,
    /// The `format` the manifest names.
    UnsupportedFormat(String),
    /// The `format_version` the manifest names.
    NewerFormat(u32),
    NoConfiguration,
    ManyConfigurations,
    /// A file-system, zip or JSON operation failed; its text.
    Io(String),
}

impl BackupError {
    pub fn message(&self) -> (m: String)
        ensures
            m@ == match self {
                BackupError::MissingConfigRoot => "configuration directory does not exist"@,
                BackupError::ArchiveExists => "the backup file already exists; choose a different path"@,
                BackupError::MissingArchiveFolder => "the backup destination folder does not exist"@,
                BackupError::SymbolicLink(path) => "symbolic links and reparse points are not supported in backups ("@
                    + path@ + ")"@,
                BackupError::MissingArchive => "the backup file does not exist"@,
                BackupError::DestinationNotAbsolute => "the import destination must be an absolute path"@,
                BackupError::DestinationNotADirectory => "the import destination is not a directory"@,
                BackupError::DestinationNotEmpty => "the import destination must be empty; pick a new empty folder so the current configuration is never overwritten by default"@,
                BackupError::StagingExists => "import staging directory already exists"@,
                BackupError::UnsafeEntry => "backup entry has an unsafe path and was refused"@,
                BackupError::UnsupportedFormat(format) => "unsupported backup format '"@ + format@
                    + "'; expected 'espanso-backup'"@,
                BackupError::NewerFormat(version) => "backup format version "@ + decimal(*version as nat)
                    + " is newer than this Settings build supports (1)"@,
                BackupError::NoConfiguration => "the archive does not contain an Espanso configuration (missing 'config' folder); nothing was written"@,
                BackupError::ManyConfigurations => "the archive contains multiple folders with a 'config' directory; re-export from Settings or zip a single configuration root"@,
                BackupError::Io(text) => text@,
            },
    {
        let mut m = String::new();
        match self {
            BackupError::MissingConfigRoot => push_str(&mut m, "configuration directory does not exist"),
            BackupError::ArchiveExists => push_str(
                &mut m,
                "the backup file already exists; choose a different path",
            ),
            BackupError::MissingArchiveFolder => push_str(
                &mut m,
                "the backup destination folder does not exist",
            ),
            BackupError::SymbolicLink(path) => {
                push_str(&mut m, "symbolic links and reparse points are not supported in backups (");
                push_str(&mut m, path.as_str());
                push_str(&mut m, ")");
            },
            BackupError::MissingArchive => push_str(&mut m, "the backup file does not exist"),
            BackupError::DestinationNotAbsolute => push_str(
                &mut m,
                "the import destination must be an absolute path",
            ),
            BackupError::DestinationNotADirectory => push_str(
                &mut m,
                "the import destination is not a directory",
            ),
            BackupError::DestinationNotEmpty => push_str(
                &mut m,
                "the import destination must be empty; pick a new empty folder so the current configuration is never overwritten by default",
            ),
            BackupError::StagingExists => push_str(&mut m, "import staging directory already exists"),
            BackupError::UnsafeEntry => push_str(
                &mut m,
                "backup entry has an unsafe path and was refused",
            ),
            BackupError::UnsupportedFormat(format) => {
                push_str(&mut m, "unsupported backup format '");
                push_str(&mut m, format.as_str());
                push_str(&mut m, "'; expected 'espanso-backup'");
            },
            BackupError::NewerFormat(version) => {
                push_str(&mut m, "backup format version ");
                push_decimal(&mut m, *version as u128);
                push_str(&mut m, " is newer than this Settings build supports (1)");
            },
            BackupError::NoConfiguration => push_str(
                &mut m,
                "the archive does not contain an Espanso configuration (missing 'config' folder); nothing was written",
            ),
            BackupError::ManyConfigurations => push_str(
                &mut m,
                "the archive contains multiple folders with a 'config' directory; re-export from Settings or zip a single configuration root",
            ),
            BackupError::Io(text) => push_str(&mut m, text.as_str()),
        }
        proof {
            let e = Seq::<char>::empty();
            assert(e + "configuration directory does not exist"@ =~= "configuration directory does not exist"@);
            assert(e + "the backup file already exists; choose a different path"@ =~= "the backup file already exists; choose a different path"@);
            assert(e + "the backup destination folder does not exist"@ =~= "the backup destination folder does not exist"@);
            assert(e + "the backup file does not exist"@ =~= "the backup file does not exist"@);
            assert(e + "the import destination must be an absolute path"@ =~= "the import destination must be an absolute path"@);
            assert(e + "the import destination is not a directory"@ =~= "the import destination is not a directory"@);
            assert(e + "the import destination must be empty; pick a new empty folder so the current configuration is never overwritten by default"@ =~= "the import destination must be empty; pick a new empty folder so the current configuration is never overwritten by default"@);
            assert(e + "import staging directory already exists"@ =~= "import staging directory already exists"@);
            assert(e + "backup entry has an unsafe path and was refused"@ =~= "backup entry has an unsafe path and was refused"@);
            assert(e + "the archive does not contain an Espanso configuration (missing 'config' folder); nothing was written"@ =~= "the archive does not contain an Espanso configuration (missing 'config' folder); nothing was written"@);
            assert(e + "the archive contains multiple folders with a 'config' directory; re-export from Settings or zip a single configuration root"@ =~= "the archive contains multiple folders with a 'config' directory; re-export from Settings or zip a single configuration root"@);
            assert(e + "symbolic links and reparse points are not supported in backups ("@ =~= "symbolic links and reparse points are not supported in backups ("@);
            assert(e + "unsupported backup format '"@ =~= "unsupported backup format '"@);
            assert(e + "backup format version "@ =~= "backup format version "@);
        }
        m
    }
}

// ---------------------------------------------------------------------------
// Export
// ---------------------------------------------------------------------------

/// What the file system says before an export.
#[derive(Debug, PartialEq, Eq)]
pub struct ExportFacts {
    pub root_is_dir: bool,
    pub archive_exists: bool,
    /// Of the archive's parent folder, when the archive path has one: whether
    /// its text is empty, and whether it is a directory.
    pub archive_parent: Option<(bool, bool)>,
}

/// One path met while walking the folder to pack: its full path, its path
/// relative to the folder, its kind and its size.
#[derive(Debug, PartialEq, Eq)]
pub struct BackupEntry {
    pub path: String,
    pub relative: String,
    pub kind: EntryKind,
    pub len: u64,
}

/// One entry to write into the archive: its name there, the path it comes
/// from, and whether it is a directory.
#[derive(Debug, PartialEq, Eq)]
pub struct ArchiveEntry {
    pub name: String,
    pub path: String,
    pub is_dir: bool,
}

/// The archive entries, file count and byte count that a walk packs into,
/// or the link that stops it.
pub struct PackedView {
    pub names: Seq<(Seq<char>, Seq<char>, bool)>,
    pub file_count: nat,
    pub byte_count: u64,
}

/// The name a directory gets in the archive: its relative path ending in `/`.
pub open spec fn directory_name(relative: Seq<char>) -> Seq<char> {
    if relative.len() > 0 && relative.last() == '/' {
        relative
    } else {
        relative.push('/')
    }
}

/// How a walk packs: links refuse the export; names are the relative paths
/// with `/` separators, directories ending in `/`; empty names are skipped;
/// files are counted and their sizes added, saturating.
pub open spec fn packed(entries: Seq<BackupEntry>) -> Result<PackedView, Seq<char>>
    decreases entries.len(),
{
    if entries.len() == 0 {
        Ok(PackedView { names: Seq::empty(), file_count: 0, byte_count: 0 })
    } else {
        match packed(entries.drop_last()) {
            Err(path) => Err(path),
            Ok(before) => {
                let e = entries.last();
                let name = forward_slashes(e.relative@);
                if e.kind == EntryKind::Symlink {
                    Err(e.path@)
                } else if name.len() == 0 {
                    Ok(before)
                } else if e.kind == EntryKind::File {
                    Ok(
                        PackedView {
                            names: before.names.push((name, e.path@, false)),
                            file_count: before.file_count + 1,
                            byte_count: if before.byte_count + e.len > u64::MAX {
                                u64::MAX
                            } else {
                                (before.byte_count + e.len) as u64
                            },
                        },
                    )
                } else if e.kind == EntryKind::Directory {
                    Ok(
                        PackedView {
                            names: before.names.push((directory_name(name), e.path@, true)),
                            ..before
                        },
                    )
                } else {
                    Ok(before)
                }
            },
        }
    }
}

pub open spec fn archive_views(entries: Seq<ArchiveEntry>) -> Seq<(Seq<char>, Seq<char>, bool)> {
    entries.map_values(|e: ArchiveEntry| (e.name@, e.path@, e.is_dir))
}

/// What the manifest of an export holds.
pub open spec fn export_manifest(
    m: BackupManifest,
    exported_at: Seq<char>,
    source_path_hint: Seq<char>,
    file_count: nat,
    byte_count: u64,
) -> bool {
    &&& m.format@ == "espanso-backup"@
    &&& m.format_version == 1
    &&& m.exported_at@ == exported_at
    &&& m.source_path_hint@ == source_path_hint
    &&& m.file_count == file_count
    &&& m.byte_count == byte_count
    &&& m.includes@.map_values(|s: String| s@) == seq!["config"@, "match"@]
}

/// An archive's manifest is one this library reads.
pub open spec fn manifest_accepted(m: BackupManifest) -> bool {
    m.format@ == "espanso-backup"@ && m.format_version <= 1
}

/// Every manifest an export writes is one an import accepts.
pub proof fn lemma_exported_manifest_is_accepted(
    m: BackupManifest,
    exported_at: Seq<char>,
    source_path_hint: Seq<char>,
    file_count: nat,
    byte_count: u64,
)
    requires
        export_manifest(m, exported_at, source_path_hint, file_count, byte_count),
    ensures
        manifest_accepted(m),
{
}

/// `label` is the time an export records for a clock reading of `secs`
/// seconds since the Unix epoch: its ISO 8601 date and time in UTC,
/// `YYYY-MM-DDTHH:MM:SSZ`.
pub open spec fn timestamp_label_of(secs: int, label: Seq<char>) -> bool {
    exists|y: int, m: int, d: int| is_date_of(secs, y, m, d) && label == #[trigger] iso_text(secs, y, m, d)
}

/// The time an export records, for some clock reading.
pub open spec fn is_timestamp_label(label: Seq<char>) -> bool {
    exists|secs: nat| #[trigger] timestamp_label_of(secs as int, label)
}

/// `name` is the default export name for a clock reading of `secs`
/// seconds since the Unix epoch: `espanso-backup-`, the reading's UTC date
/// and time as `YYYYMMDD-HHMM`, and `.espanso-backup.zip`.
pub open spec fn export_name_of(secs: int, name: Seq<char>) -> bool {
    exists|y: int, m: int, d: int|
        is_date_of(secs, y, m, d) && name == "espanso-backup-"@ + #[trigger] stamp_text(secs, y, m, d)
            + ".espanso-backup.zip"@
}

/// The default name of a new export's file, for some clock reading.
pub open spec fn is_export_name(name: Seq<char>) -> bool {
    exists|secs: nat| #[trigger] export_name_of(secs as int, name)
}

/// The time recorded for a clock reading of `secs` seconds since the Unix
/// epoch.
pub fn timestamp_label_for(secs: u64) -> (r: String)
    ensures
        timestamp_label_of(secs as int, r@),
{
    utc_date_time(secs)
}

/// The time recorded for the clock's current reading.
pub fn unix_timestamp_label() -> (r: String)
    ensures
        is_timestamp_label(r@),
{
    let secs = unix_secs();
    let r = timestamp_label_for(secs);
    proof {
        assert(timestamp_label_of((secs as nat) as int, r@));
    }
    r
}

pub struct BackupService;

impl BackupService {
    /// The default export name for a clock reading of `secs` seconds since
    /// the Unix epoch.
    pub fn export_name_for(secs: u64) -> (r: String)
        ensures
            export_name_of(secs as int, r@),
    {
        let stamp = utc_stamp(secs);
        let mut r = String::new();
        push_str(&mut r, "espanso-backup-");
        push_str(&mut r, stamp.as_str());
        push_str(&mut r, ".espanso-backup.zip");
        proof {
            let (y, m, d) = choose|y: int, m: int, d: int|
                is_date_of(secs as int, y, m, d) && stamp@ == stamp_text(secs as int, y, m, d);
            assert(r@ =~= "espanso-backup-"@ + stamp_text(secs as int, y, m, d) + ".espanso-backup.zip"@);
        }
        r
    }

    /// Default file name for a new export, stamped with the clock's current
    /// reading.
    pub fn default_export_name() -> (r: String)
        ensures
            is_export_name(r@),
    {
        let secs = unix_secs();
        let r = Self::export_name_for(secs);
        proof {
            assert(export_name_of((secs as nat) as int, r@));
        }
        r
    }

    /// The checks before an export, in order: the folder exists; the archive
    /// does not; the archive's folder, when named, exists.
    pub fn check_export(facts: &ExportFacts) -> (r: Result<(), BackupError>)
        ensures
            !facts.root_is_dir ==> r == Err::<(), BackupError>(BackupError::MissingConfigRoot),
            facts.root_is_dir && facts.archive_exists ==> r == Err::<(), BackupError>(
                BackupError::ArchiveExists,
            ),
            facts.root_is_dir && !facts.archive_exists ==> match facts.archive_parent {
                Some((empty_text, is_dir)) if !empty_text && !is_dir => r == Err::<(), BackupError>(
                    BackupError::MissingArchiveFolder,
                ),
                _ => r is Ok,
            },
    {
        if !facts.root_is_dir {
            return Err(BackupError::MissingConfigRoot);
        }
        if facts.archive_exists {
            return Err(BackupError::ArchiveExists);
        }
        if let Some((empty_text, is_dir)) = facts.archive_parent {
            if !empty_text && !is_dir {
                return Err(BackupError::MissingArchiveFolder);
            }
        }
        Ok(())
    }

    /// Turns the walk of the folder to pack into archive entries, refusing
    /// links, and counts the files and their bytes.
    pub fn pack_entries(entries: &[BackupEntry]) -> (r: Result<(Vec<ArchiveEntry>, usize, u64), BackupError>)
        ensures
            match packed(entries@) {
                Err(path) => r matches Err(BackupError::SymbolicLink(p)) && p@ == path,
                Ok(v) => r matches Ok((names, files, bytes)) && archive_views(names@) == v.names
                    && files == v.file_count && bytes == v.byte_count,
            },
    {
        let mut out: Vec<ArchiveEntry> = Vec::new();
        let mut files: usize = 0;
        let mut bytes: u64 = 0;
        let mut i: usize = 0;
        while i < entries.len()
            invariant
                i <= entries@.len(),
                files <= i,
                packed(entries@.take(i as int)) matches Ok(v) && archive_views(out@) == v.names
                    && files == v.file_count && bytes == v.byte_count,
            decreases entries.len() - i,
        {
            proof {
                assert(entries@.take(i + 1).drop_last() == entries@.take(i as int));
                assert(entries@.take(i + 1).last() == entries@[i as int]);
            }
            let e = &entries[i];
            if e.kind == EntryKind::Symlink {
                proof {
                    lemma_packed_stays_err(entries@, i as int + 1);
                }
                return Err(BackupError::SymbolicLink(e.path.clone()));
            }
            let name = with_forward_slashes(e.relative.as_str());
            if !name.as_str().is_empty() {
                if e.kind == EntryKind::File {
                    files = files + 1;
                    bytes = bytes.saturating_add(e.len);
                    out.push(ArchiveEntry { name, path: e.path.clone(), is_dir: false });
                    proof {
                        assert(archive_views(out@) =~= archive_views(out@.drop_last()).push(
                            (forward_slashes(e.relative@), e.path@, false),
                        ));
                    }
                } else if e.kind == EntryKind::Directory {
                    let dir_name = if ends_with_slash(name.as_str()) {
                        name
                    } else {
                        let mut n = name;
                        push_str(&mut n, "/");
                        proof {
                            reveal_strlit("/");
                            assert(n@ =~= forward_slashes(e.relative@).push('/'));
                        }
                        n
                    };
                    out.push(ArchiveEntry { name: dir_name, path: e.path.clone(), is_dir: true });
                    proof {
                        assert(archive_views(out@) =~= archive_views(out@.drop_last()).push(
                            (directory_name(forward_slashes(e.relative@)), e.path@, true),
                        ));
                    }
                }
            }
            i = i + 1;
        }
        proof {
            assert(entries@.take(entries@.len() as int) == entries@);
        }
        Ok((out, files, bytes))
    }

    /// The manifest an export writes.
    pub fn manifest_for_export(
        exported_at: String,
        source_path_hint: String,
        file_count: usize,
        byte_count: u64,
    ) -> (m: BackupManifest)
        ensures
            export_manifest(m, exported_at@, source_path_hint@, file_count as nat, byte_count),
    {
        let mut includes: Vec<String> = Vec::new();
        includes.push(owned("config"));
        includes.push(owned("match"));
        proof {
            assert(includes@.map_values(|s: String| s@) =~= seq!["config"@, "match"@]);
        }
        BackupManifest {
            format: owned(BACKUP_FORMAT),
            format_version: BACKUP_FORMAT_VERSION,
            exported_at,
            source_path_hint,
            file_count,
            byte_count,
            includes,
        }
    }

    // -----------------------------------------------------------------------
    // Import
    // -----------------------------------------------------------------------

    /// The checks of an import's target, in order: the archive is a file; the
    /// destination is absolute; it can be made canonical; if it exists it is
    /// an empty directory. The result is the canonical destination.
    pub fn check_import(
        archive_is_file: bool,
        destination_absolute: bool,
        destination: &Result<CanonicalPath, String>,
        folder: &FolderFacts,
    ) -> (r: Result<String, BackupError>)
        ensures
            if !archive_is_file {
                r == Err::<String, BackupError>(BackupError::MissingArchive)
            } else if !destination_absolute {
                r == Err::<String, BackupError>(BackupError::DestinationNotAbsolute)
            } else {
                match destination {
                    Err(m) => r matches Err(BackupError::Io(t)) && t@ == m@,
                    Ok(d) => match destination_fault(*folder) {
                        Some(DestinationFault::NotADirectory) => r == Err::<String, BackupError>(
                            BackupError::DestinationNotADirectory,
                        ),
                        Some(DestinationFault::NotEmpty) => r == Err::<String, BackupError>(
                            BackupError::DestinationNotEmpty,
                        ),
                        Some(DestinationFault::Unlisted) => r matches Err(BackupError::Io(t))
                            && folder.empty matches Err(m) && t@ == m@,
                        None => r matches Ok(text) && text@ == d.text@,
                    },
                }
            },
    {
        if !archive_is_file {
            return Err(BackupError::MissingArchive);
        }
        if !destination_absolute {
            return Err(BackupError::DestinationNotAbsolute);
        }
        let d = match destination {
            Err(m) => return Err(BackupError::Io(m.clone())),
            Ok(d) => d,
        };
        if folder.exists {
            if !folder.is_dir {
                return Err(BackupError::DestinationNotADirectory);
            }
            match &folder.empty {
                Err(m) => return Err(BackupError::Io(m.clone())),
                Ok(false) => return Err(BackupError::DestinationNotEmpty),
                Ok(true) => {},
            }
        }
        Ok(d.text.clone())
    }

    /// Accepts a manifest that names this format at a version no newer than
    /// the one this library reads.
    pub fn check_manifest(manifest: &BackupManifest) -> (r: Result<(), BackupError>)
        ensures
            manifest.format@ != "espanso-backup"@ ==> (r matches Err(BackupError::UnsupportedFormat(f))
                && f@ == manifest.format@),
            manifest.format@ == "espanso-backup"@ && manifest.format_version > 1 ==> r == Err::<
                (),
                BackupError,
            >(BackupError::NewerFormat(manifest.format_version)),
            r is Ok <==> manifest_accepted(*manifest),
    {
        if !same_text(manifest.format.as_str(), BACKUP_FORMAT) {
            return Err(BackupError::UnsupportedFormat(manifest.format.clone()));
        }
        if manifest.format_version > BACKUP_FORMAT_VERSION {
            return Err(BackupError::NewerFormat(manifest.format_version));
        }
        Ok(())
    }

    /// Finds the configuration root inside an unpacked archive: the staging
    /// folder itself when it holds `config/`, else its only child folder that
    /// does. A manifest, when there is one, must be readable and accepted
    /// first. Returns the root and whether there was a manifest.
    pub fn locate_config_root(
        staging: &str,
        manifest: &Option<Result<BackupManifest, String>>,
        staging_has_config: bool,
        children_with_config: &[String],
    ) -> (r: Result<(String, bool), BackupError>)
        ensures
            match manifest {
                Some(Err(m)) => r matches Err(BackupError::Io(t)) && t@ == m@,
                Some(Ok(man)) if man.format@ != "espanso-backup"@ => r matches Err(
                    BackupError::UnsupportedFormat(f),
                ) && f@ == man.format@,
                Some(Ok(man)) if man.format_version > 1 => r == Err::<(String, bool), BackupError>(
                    BackupError::NewerFormat(man.format_version),
                ),
                _ => if staging_has_config {
                    r matches Ok((root, had)) && root@ == staging@ && had == manifest is Some
                } else if children_with_config@.len() == 1 {
                    r matches Ok((root, had)) && root@ == children_with_config@[0]@ && had
                        == manifest is Some
                } else if children_with_config@.len() == 0 {
                    r == Err::<(String, bool), BackupError>(BackupError::NoConfiguration)
                } else {
                    r == Err::<(String, bool), BackupError>(BackupError::ManyConfigurations)
                },
            },
    {
        let had_manifest = manifest.is_some();
        match manifest {
            Some(Err(m)) => return Err(BackupError::Io(m.clone())),
            Some(Ok(man)) => {
                if let Err(e) = Self::check_manifest(man) {
                    return Err(e);
                }
            },
            None => {},
        }
        if staging_has_config {
            return Ok((owned(staging), had_manifest));
        }
        if children_with_config.len() == 1 {
            Ok((children_with_config[0].clone(), had_manifest))
        } else if children_with_config.len() == 0 {
            Err(BackupError::NoConfiguration)
        } else {
            Err(BackupError::ManyConfigurations)
        }
    }

    /// An archive entry may be unpacked only when its enclosed path is made
    /// of plain names and `.` components.
    pub fn entry_path_safe(components: &[PathPart]) -> (r: Result<(), BackupError>)
        ensures
            r is Ok <==> forall|i: int| 0 <= i < components@.len() ==> (#[trigger] components@[i]).plain(),
            r is Err ==> r == Err::<(), BackupError>(BackupError::UnsafeEntry),
    {
        let mut i: usize = 0;
        while i < components.len()
            invariant
                i <= components@.len(),
                forall|j: int| 0 <= j < i ==> (#[trigger] components@[j]).plain(),
            decreases components.len() - i,
        {
            match components[i] {
                PathPart::Normal | PathPart::CurDir => {},
                _ => return Err(BackupError::UnsafeEntry),
            }
            i = i + 1;
        }
        Ok(())
    }
}

/// The kind of one component of a path (`std::path::Component`).
#[derive(Debug, Clone, Copy, PartialEq, Eq, Structural)]
pub enum PathPart {
    Prefix,
    RootDir,
    CurDir,
    ParentDir,
    Normal,
}

impl PathPart {
    pub open spec fn plain(self) -> bool {
        self is Normal || self is CurDir
    }
}

fn ends_with_slash(s: &str) -> (r: bool)
    ensures
        r == (s@.len() > 0 && s@.last() == '/'),
{
    let v = crate::text::chars_of(s);
    v.len() > 0 && v[v.len() - 1] == '/'
}

proof fn lemma_packed_stays_err(entries: Seq<BackupEntry>, n: int)
    requires
        0 < n <= entries.len(),
        packed(entries.take(n - 1)) is Ok,
        entries[n - 1].kind == EntryKind::Symlink,
    ensures
        packed(entries) == Err::<PackedView, Seq<char>>(entries[n - 1].path@),
    decreases entries.len(),
{
    if entries.len() == n {
        assert(entries.drop_last() == entries.take(n - 1));
    } else {
        assert(entries.drop_last().take(n - 1) == entries.take(n - 1));
        lemma_packed_stays_err(entries.drop_last(), n);
    }
}


/// Packing counts files only: a directory, or an entry that is neither a
/// file nor a link, adds its name at most and leaves the file and byte
/// counts as they were; a file with a name adds one to the file count and
/// its length to the byte count, saturating at `u64::MAX`.
pub proof fn lemma_pack_counts_files_only(entries: Seq<BackupEntry>, e: BackupEntry)
    requires
        packed(entries) is Ok,
        e.kind != EntryKind::Symlink,
    ensures
        packed(entries.push(e)) is Ok,
        ({
            let before = packed(entries)->Ok_0;
            let after = packed(entries.push(e))->Ok_0;
            &&& (e.kind != EntryKind::File || forward_slashes(e.relative@).len() == 0) ==> after.file_count
                == before.file_count && after.byte_count == before.byte_count
            &&& (e.kind == EntryKind::File && forward_slashes(e.relative@).len() > 0) ==> after.file_count
                == before.file_count + 1 && after.byte_count == (if before.byte_count + e.len > u64::MAX {
                u64::MAX as int
            } else {
                before.byte_count + e.len
            })
        }),
{
    assert(entries.push(e).drop_last() =~= entries);
    assert(entries.push(e).last() == e);
}

} // verus!
