//! Pointing Settings at a configuration folder that already exists.
//!
//! Adopting writes nothing: the folder keeps every file, comment and
//! hand-written match exactly as it is. That is what makes it safe to switch
//! without asking the user to confirm first.
use vstd::prelude::*;
use crate::folders::{is_same_folder, overlapping, overlaps, same_folder, CanonicalPath, FolderFacts};
use crate::text::owned;

verus! {

/// An existing configuration folder that Settings can point at.
#[derive(Debug, PartialEq, Eq)]
pub struct AdoptPlan {
    pub destination: String,
    pub config_count: usize,
    pub match_count: usize,
    /// Files espanso loaded but complained about. Non-fatal, so they do not
    /// block the switch; the caller surfaces them as a warning.
    pub warning_files: Vec<String>,
}

/// What the file system says of the folder picked to open.
#[derive(Debug, PartialEq, Eq)]
pub struct AdoptFacts {
    pub selected_absolute: bool,
    /// The folder as picked.
    pub selected: FolderFacts,
    /// The picked folder made canonical, or why that failed.
    pub destination: Result<CanonicalPath, String>,
    /// The active configuration folder made canonical, or why that failed;
    /// `None` when it does not exist.
    pub current: Option<Result<CanonicalPath, String>>,
    /// The canonical folder holds a `config` directory.
    pub has_config_dir: bool,
}

#[derive(Debug, PartialEq, Eq)]
pub enum AdoptError {
    NotAbsolute,
    NotADirectory,
    Empty,
    AlreadyActive,
    Overlap,
    NotAConfiguration,
    /// A file-system query failed, or espanso could not load the folder; the text.
    Io(String),
}

impl AdoptError {
    pub fn message(&self) -> (m: String)
        ensures
            m@ == match self {
                AdoptError::NotAbsolute => "the selected directory must be an absolute path"@,
                AdoptError::NotADirectory => "the selected path is not a directory"@,
                AdoptError::Empty => "the selected directory is empty; use “Create new configuration…” to generate a default configuration there"@,
                AdoptError::AlreadyActive => "that directory is already the active configuration directory"@,
                AdoptError::Overlap => "the selected directory must not contain, or sit inside, the current configuration directory"@,
                AdoptError::NotAConfiguration => "the selected directory is not empty and does not contain a 'config' folder, so it is not an Espanso configuration; pick the folder that holds 'config' and 'match', use “Import backup…” for a portable archive, or “Create new configuration…” with an empty folder"@,
                AdoptError::Io(text) => text@,
            },
    {
        match self {
            AdoptError::NotAbsolute => owned("the selected directory must be an absolute path"),
            AdoptError::NotADirectory => owned("the selected path is not a directory"),
            AdoptError::Empty => owned(
                "the selected directory is empty; use “Create new configuration…” to generate a default configuration there",
            ),
            AdoptError::AlreadyActive => owned(
                "that directory is already the active configuration directory",
            ),
            AdoptError::Overlap => owned(
                "the selected directory must not contain, or sit inside, the current configuration directory",
            ),
            AdoptError::NotAConfiguration => owned(
                "the selected directory is not empty and does not contain a 'config' folder, so it is not an Espanso configuration; pick the folder that holds 'config' and 'match', use “Import backup…” for a portable archive, or “Create new configuration…” with an empty folder",
            ),
            AdoptError::Io(text) => text.clone(),
        }
    }
}

/// The checks of a folder to open, in order: the path is absolute; if it
/// exists it is a directory; it is not empty (a missing folder counts as
/// empty); it can be made canonical; it is not the active folder, and
/// neither contains nor lies inside it; it holds a `config` directory. The
/// result is the canonical folder.
pub open spec fn adopt_checked(f: AdoptFacts, r: Result<String, AdoptError>) -> bool {
    if !f.selected_absolute {
        r == Err::<String, AdoptError>(AdoptError::NotAbsolute)
    } else if f.selected.exists && !f.selected.is_dir {
        r == Err::<String, AdoptError>(AdoptError::NotADirectory)
    } else if f.selected.exists && f.selected.empty is Err {
        r matches Err(AdoptError::Io(t)) && f.selected.empty matches Err(m) && t@ == m@
    } else if !f.selected.exists || f.selected.empty == Ok::<bool, String>(true) {
        r == Err::<String, AdoptError>(AdoptError::Empty)
    } else {
        match f.destination {
            Err(m) => r matches Err(AdoptError::Io(t)) && t@ == m@,
            Ok(destination) => match f.current {
                Some(Err(m)) => r matches Err(AdoptError::Io(t)) && t@ == m@,
                Some(Ok(current)) if same_folder(current, destination) => r == Err::<String, AdoptError>(
                    AdoptError::AlreadyActive,
                ),
                Some(Ok(current)) if overlapping(current, destination) => r == Err::<String, AdoptError>(
                    AdoptError::Overlap,
                ),
                _ => if !f.has_config_dir {
                    r == Err::<String, AdoptError>(AdoptError::NotAConfiguration)
                } else {
                    r matches Ok(d) && d@ == destination.text@
                },
            },
        }
    }
}

pub struct AdoptService;

impl AdoptService {
    /// Decides whether the picked folder may be opened as the active
    /// configuration; the caller then loads it with espanso to count what it
    /// holds.
    pub fn check(facts: &AdoptFacts) -> (r: Result<String, AdoptError>)
        ensures
            adopt_checked(*facts, r),
    {
        if !facts.selected_absolute {
            return Err(AdoptError::NotAbsolute);
        }
        if facts.selected.exists && !facts.selected.is_dir {
            return Err(AdoptError::NotADirectory);
        }
        let is_empty = if !facts.selected.exists {
            true
        } else {
            match &facts.selected.empty {
                Err(m) => return Err(AdoptError::Io(m.clone())),
                Ok(e) => *e,
            }
        };
        if is_empty {
            return Err(AdoptError::Empty);
        }
        let destination = match &facts.destination {
            Err(m) => return Err(AdoptError::Io(m.clone())),
            Ok(d) => d,
        };
        match &facts.current {
            Some(Err(m)) => return Err(AdoptError::Io(m.clone())),
            Some(Ok(current)) => {
                if is_same_folder(current, destination) {
                    return Err(AdoptError::AlreadyActive);
                }
                if overlaps(current, destination) {
                    return Err(AdoptError::Overlap);
                }
            },
            None => {},
        }
        if !facts.has_config_dir {
            return Err(AdoptError::NotAConfiguration);
        }
        Ok(destination.text.clone())
    }
}

} // verus!
