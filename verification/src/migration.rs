//! Copying the active configuration into another, empty folder and switching
//! to it, after espanso has validated the copy.
use vstd::prelude::*;
use crate::folders::{
    destination_fault, overlapping, overlaps, CanonicalPath, DestinationFault, FolderFacts,
};
use crate::text::{decimal, owned, push_decimal, push_str};

verus! {

#[derive(Debug, PartialEq, Eq)]
pub struct MigrationPlan {
    pub source: String,
    pub destination: String,
    pub file_count: usize,
    pub byte_count: u64,
    /// Symbolic links (or reparse points) found in the source, relative to it.
    pub conflicts: Vec<String>,
}

/// What a walk of a folder found at one path.
#[derive(Debug, Clone, Copy, PartialEq, Eq, Structural)]
pub enum EntryKind {
    File,
    Directory,
    Symlink,
    Other,
}

/// One path of a folder walk, relative to the folder, with the kind and the
/// size that `symlink_metadata` reports.
#[derive(Debug, PartialEq, Eq)]
pub struct WalkedEntry {
    pub relative: String,
    pub kind: EntryKind,
    pub len: u64,
}

/// What the file system says of a copy's source and destination.
#[derive(Debug, PartialEq, Eq)]
pub struct MigrationFacts {
    pub source_absolute: bool,
    pub destination_absolute: bool,
    pub source_is_dir: bool,
    /// The source made canonical, or why that failed.
    pub source: Result<CanonicalPath, String>,
    /// The destination made canonical (its parent canonicalised when it
    /// does not exist yet), or why that failed.
    pub destination: Result<CanonicalPath, String>,
    /// The canonical destination.
    pub destination_folder: FolderFacts,
    /// Every path under the canonical source, or why the walk failed.
    pub entries: Result<Vec<WalkedEntry>, String>,
}

#[derive(Debug, PartialEq, Eq)]
pub enum MigrationError {
    NotAbsolute,
    MissingSource,
    Overlap,
    NotADirectory,
    NotEmpty,
    UnsupportedLinks,
    StagingExists,
    /// A file-system query or the validation failed; its text.
    Io(String),
}

impl MigrationError {
    pub fn message(&self) -> (m: String)
        ensures
            m@ == match self {
                MigrationError::NotAbsolute => "source and destination must be absolute paths"@,
                MigrationError::MissingSource => "source configuration directory does not exist"@,
                MigrationError::Overlap => "source and destination must not overlap"@,
                MigrationError::NotADirectory => "destination is not a directory"@,
                MigrationError::NotEmpty => "destination must be empty"@,
                MigrationError::UnsupportedLinks => "migration contains unsupported symbolic links or reparse points"@,
                MigrationError::StagingExists => "migration staging directory already exists"@,
                MigrationError::Io(text) => text@,
            },
    {
        match self {
            MigrationError::NotAbsolute => owned("source and destination must be absolute paths"),
            MigrationError::MissingSource => owned("source configuration directory does not exist"),
            MigrationError::Overlap => owned("source and destination must not overlap"),
            MigrationError::NotADirectory => owned("destination is not a directory"),
            MigrationError::NotEmpty => owned("destination must be empty"),
            MigrationError::UnsupportedLinks => owned(
                "migration contains unsupported symbolic links or reparse points",
            ),
            MigrationError::StagingExists => owned("migration staging directory already exists"),
            MigrationError::Io(text) => text.clone(),
        }
    }
}

/// Files in the walk.
pub open spec fn file_count(entries: Seq<WalkedEntry>) -> nat
    decreases entries.len(),
{
    if entries.len() == 0 {
        0
    } else {
        file_count(entries.drop_last()) + if entries.last().kind == EntryKind::File {
            1nat
        } else {
            0nat
        }
    }
}

/// The sizes of the files in the walk, added in order, saturating at
/// `u64::MAX`.
pub open spec fn byte_count(entries: Seq<WalkedEntry>) -> u64
    decreases entries.len(),
{
    if entries.len() == 0 {
        0
    } else {
        let before = byte_count(entries.drop_last());
        if entries.last().kind == EntryKind::File {
            if before + entries.last().len > u64::MAX {
                u64::MAX
            } else {
                (before + entries.last().len) as u64
            }
        } else {
            before
        }
    }
}

/// The relative paths of the links in the walk, in order.
pub open spec fn link_paths(entries: Seq<WalkedEntry>) -> Seq<Seq<char>>
    decreases entries.len(),
{
    if entries.len() == 0 {
        Seq::empty()
    } else if entries.last().kind == EntryKind::Symlink {
        link_paths(entries.drop_last()).push(entries.last().relative@)
    } else {
        link_paths(entries.drop_last())
    }
}

/// The plan a copy makes of its source and destination and the walk.
pub open spec fn planned(plan: MigrationPlan, source: CanonicalPath, destination: CanonicalPath, entries: Seq<WalkedEntry>) -> bool {
    &&& plan.source@ == source.text@
    &&& plan.destination@ == destination.text@
    &&& plan.file_count == file_count(entries)
    &&& plan.byte_count == byte_count(entries)
    &&& plan.conflicts@.map_values(|c: String| c@) == link_paths(entries)
}

/// The checks of a copy, in order: both paths are absolute; the source is a
/// directory; both can be made canonical; they do not overlap; an existing
/// destination is an empty directory; the source can be walked.
pub open spec fn migration_checked(f: MigrationFacts, r: Result<MigrationPlan, MigrationError>) -> bool {
    if !f.source_absolute || !f.destination_absolute {
        r == Err::<MigrationPlan, MigrationError>(MigrationError::NotAbsolute)
    } else if !f.source_is_dir {
        r == Err::<MigrationPlan, MigrationError>(MigrationError::MissingSource)
    } else {
        match (f.source, f.destination) {
            (Err(m), _) => r matches Err(MigrationError::Io(t)) && t@ == m@,
            (Ok(_), Err(m)) => r matches Err(MigrationError::Io(t)) && t@ == m@,
            (Ok(source), Ok(destination)) => if overlapping(source, destination) {
                r == Err::<MigrationPlan, MigrationError>(MigrationError::Overlap)
            } else {
                match destination_fault(f.destination_folder) {
                    Some(DestinationFault::NotADirectory) => r == Err::<MigrationPlan, MigrationError>(
                        MigrationError::NotADirectory,
                    ),
                    Some(DestinationFault::NotEmpty) => r == Err::<MigrationPlan, MigrationError>(
                        MigrationError::NotEmpty,
                    ),
                    Some(DestinationFault::Unlisted) => r matches Err(MigrationError::Io(t))
                        && f.destination_folder.empty matches Err(m) && t@ == m@,
                    None => match f.entries {
                        Err(m) => r matches Err(MigrationError::Io(t)) && t@ == m@,
                        Ok(entries) => r matches Ok(plan) && planned(plan, source, destination, entries@),
                    },
                }
            },
        }
    }
}

fn tally(entries: &[WalkedEntry]) -> (r: (usize, u64, Vec<String>))
    ensures
        r.0 == file_count(entries@),
        r.1 == byte_count(entries@),
        r.2@.map_values(|c: String| c@) == link_paths(entries@),
{
    let mut files: usize = 0;
    let mut bytes: u64 = 0;
    let mut links: Vec<String> = Vec::new();
    let mut i: usize = 0;
    while i < entries.len()
        invariant
            i <= entries@.len(),
            files == file_count(entries@.take(i as int)),
            files <= i,
            bytes == byte_count(entries@.take(i as int)),
            links@.map_values(|c: String| c@) == link_paths(entries@.take(i as int)),
        decreases entries.len() - i,
    {
        proof {
            assert(entries@.take(i + 1).drop_last() == entries@.take(i as int));
            assert(entries@.take(i + 1).last() == entries@[i as int]);
        }
        let e = &entries[i];
        match e.kind {
            EntryKind::Symlink => {
                links.push(e.relative.clone());
                proof {
                    assert(links@.map_values(|c: String| c@) =~= link_paths(entries@.take(i as int)).push(
                        e.relative@,
                    ));
                }
            },
            EntryKind::File => {
                files = files + 1;
                bytes = bytes.saturating_add(e.len);
            },
            _ => {},
        }
        i = i + 1;
    }
    proof {
        assert(entries@.take(entries@.len() as int) == entries@);
    }
    (files, bytes, links)
}

/// The verdict on a copy that espanso loaded: what its loader reported, or
/// how many sets of non-fatal errors it found.
#[derive(Debug, PartialEq, Eq)]
pub enum ValidationError {
    /// espanso could not load the copy; the loader's text, kept as the cause.
    Rejected(String),
    /// The number of error sets espanso reported.
    NonFatalErrors(usize),
}

impl ValidationError {
    pub fn message(&self) -> (m: String)
        ensures
            m@ == match self {
                ValidationError::Rejected(_) => "Espanso rejected the copied configuration"@,
                ValidationError::NonFatalErrors(n) => "copied configuration contains "@ + decimal(*n as nat)
                    + " parsing or validation error set(s)"@,
            },
    {
        let mut m = String::new();
        match self {
            ValidationError::Rejected(_) => {
                push_str(&mut m, "Espanso rejected the copied configuration");
            },
            ValidationError::NonFatalErrors(n) => {
                push_str(&mut m, "copied configuration contains ");
                push_decimal(&mut m, *n as u128);
                push_str(&mut m, " parsing or validation error set(s)");
            },
        }
        proof {
            assert(Seq::<char>::empty() + "Espanso rejected the copied configuration"@ =~= "Espanso rejected the copied configuration"@);
            assert(Seq::<char>::empty() + "copied configuration contains "@ =~= "copied configuration contains "@);
        }
        m
    }
}

/// The strict validation of a folder Settings itself wrote: it is accepted
/// only when espanso loads it without a single complaint.
pub struct EspansoConfigValidator;

impl EspansoConfigValidator {
    /// Decides on what espanso's loader said of the folder: the loader's
    /// failure text, or the number of non-fatal error sets it reported.
    pub fn verdict(load: Result<usize, String>) -> (r: Result<(), ValidationError>)
        ensures
            match load {
                Err(m) => r matches Err(ValidationError::Rejected(t)) && t@ == m@,
                Ok(0) => r is Ok,
                Ok(n) => r == Err::<(), ValidationError>(ValidationError::NonFatalErrors(n)),
            },
    {
        match load {
            Err(m) => Err(ValidationError::Rejected(m)),
            Ok(n) => if n == 0 {
                Ok(())
            } else {
                Err(ValidationError::NonFatalErrors(n))
            },
        }
    }
}

pub struct MigrationService;

impl MigrationService {
    /// Decides whether the active configuration may be copied to the
    /// destination, and counts what the copy will hold.
    pub fn check(facts: &MigrationFacts) -> (r: Result<MigrationPlan, MigrationError>)
        ensures
            migration_checked(*facts, r),
    {
        if !facts.source_absolute || !facts.destination_absolute {
            return Err(MigrationError::NotAbsolute);
        }
        if !facts.source_is_dir {
            return Err(MigrationError::MissingSource);
        }
        let source = match &facts.source {
            Err(m) => return Err(MigrationError::Io(m.clone())),
            Ok(s) => s,
        };
        let destination = match &facts.destination {
            Err(m) => return Err(MigrationError::Io(m.clone())),
            Ok(d) => d,
        };
        if overlaps(source, destination) {
            return Err(MigrationError::Overlap);
        }
        if facts.destination_folder.exists {
            if !facts.destination_folder.is_dir {
                return Err(MigrationError::NotADirectory);
            }
            match &facts.destination_folder.empty {
                Err(m) => return Err(MigrationError::Io(m.clone())),
                Ok(false) => return Err(MigrationError::NotEmpty),
                Ok(true) => {},
            }
        }
        let entries = match &facts.entries {
            Err(m) => return Err(MigrationError::Io(m.clone())),
            Ok(e) => e,
        };
        let (file_count, byte_count, conflicts) = tally(entries.as_slice());
        Ok(
            MigrationPlan {
                source: source.text.clone(),
                destination: destination.text.clone(),
                file_count,
                byte_count,
                conflicts,
            },
        )
    }

    /// Whether a planned copy may start: it holds no links, and its staging
    /// folder is not already there.
    pub fn ready(plan: &MigrationPlan, staging_exists: bool) -> (r: Result<(), MigrationError>)
        ensures
            plan.conflicts@.len() > 0 ==> r == Err::<(), MigrationError>(MigrationError::UnsupportedLinks),
            plan.conflicts@.len() == 0 && staging_exists ==> r == Err::<(), MigrationError>(
                MigrationError::StagingExists,
            ),
            plan.conflicts@.len() == 0 && !staging_exists ==> r is Ok,
    {
        if plan.conflicts.len() > 0 {
            Err(MigrationError::UnsupportedLinks)
        } else if staging_exists {
            Err(MigrationError::StagingExists)
        } else {
            Ok(())
        }
    }
}


/// A copy counts files only: a directory, link or other entry of the walk
/// changes neither the file count nor the byte count, whatever its size; a
/// file adds one to the file count and its size to the byte count,
/// saturating at `u64::MAX`.
pub proof fn lemma_tally_counts_files_only(entries: Seq<WalkedEntry>, e: WalkedEntry)
    ensures
        e.kind != EntryKind::File ==> file_count(entries.push(e)) == file_count(entries)
            && byte_count(entries.push(e)) == byte_count(entries),
        e.kind == EntryKind::File ==> file_count(entries.push(e)) == file_count(entries) + 1
            && byte_count(entries.push(e)) == (if byte_count(entries) + e.len > u64::MAX {
            u64::MAX as int
        } else {
            byte_count(entries) + e.len
        }),
{
    assert(entries.push(e).drop_last() =~= entries);
    assert(entries.push(e).last() == e);
}

} // verus!
