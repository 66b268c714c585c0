//! Creating a fresh configuration in an empty folder.
use vstd::prelude::*;
use crate::folders::{
    destination_fault, overlapping, overlaps, CanonicalPath, DestinationFault, FolderFacts,
};
use crate::text::owned;

verus! {

/// Default file contents used to bootstrap a fresh configuration directory.
///
/// The templates are injected by the caller rather than embedded here: they
/// live in the `espanso` binary next to `populate_default_config`.
#[derive(Debug, PartialEq, Eq)]
pub struct ConfigTemplates {
    pub default_yml: String,
    pub base_yml: String,
}

#[derive(Debug, PartialEq, Eq)]
pub struct ScaffoldPlan {
    pub destination: String,
}

impl Clone for ConfigTemplates {
    fn clone(&self) -> (r: Self)
        ensures
            r == *self,
    {
        ConfigTemplates { default_yml: self.default_yml.clone(), base_yml: self.base_yml.clone() }
    }
}

impl Clone for ScaffoldPlan {
    fn clone(&self) -> (r: Self)
        ensures
            r == *self,
    {
        ScaffoldPlan { destination: self.destination.clone() }
    }
}

/// What the file system says of the folder picked for a new configuration.
#[derive(Debug, PartialEq, Eq)]
pub struct ScaffoldFacts {
    pub destination_absolute: bool,
    /// The destination made canonical (its parent canonicalised when it does
    /// not exist yet), or why that failed.
    pub destination: Result<CanonicalPath, String>,
    /// The canonical destination.
    pub folder: FolderFacts,
    /// The active configuration folder made canonical, or why that failed;
    /// `None` when it does not exist.
    pub current: Option<Result<CanonicalPath, String>>,
}

#[derive(Debug, PartialEq, Eq)]
pub enum ScaffoldError {
    NotAbsolute,
    NotADirectory,
    NotEmpty,
    Overlap,
    /// A file-system query failed; its text.
    Io(String),
}

impl ScaffoldError {
    pub fn message(&self) -> (m: String)
        ensures
            m@ == match self {
                ScaffoldError::NotAbsolute => "the selected directory must be an absolute path"@,
                ScaffoldError::NotADirectory => "the selected path is not a directory"@,
                ScaffoldError::NotEmpty => "the selected directory is not empty; create a new empty folder and select it"@,
                ScaffoldError::Overlap => "the selected directory must not overlap the current configuration directory"@,
                ScaffoldError::Io(text) => text@,
            },
    {
        match self {
            ScaffoldError::NotAbsolute => owned("the selected directory must be an absolute path"),
            ScaffoldError::NotADirectory => owned("the selected path is not a directory"),
            ScaffoldError::NotEmpty => owned(
                "the selected directory is not empty; create a new empty folder and select it",
            ),
            ScaffoldError::Overlap => owned(
                "the selected directory must not overlap the current configuration directory",
            ),
            ScaffoldError::Io(text) => text.clone(),
        }
    }
}

/// The checks of a new configuration's folder, in order: the path is
/// absolute; it can be made canonical; if it exists it is an empty directory;
/// it neither is, contains, nor lies inside the active configuration folder.
pub open spec fn scaffold_checked(f: ScaffoldFacts, r: Result<ScaffoldPlan, ScaffoldError>) -> bool {
    if !f.destination_absolute {
        r == Err::<ScaffoldPlan, ScaffoldError>(ScaffoldError::NotAbsolute)
    } else {
        match f.destination {
            Err(m) => r matches Err(ScaffoldError::Io(t)) && t@ == m@,
            Ok(destination) => match destination_fault(f.folder) {
                Some(DestinationFault::NotADirectory) => r == Err::<ScaffoldPlan, ScaffoldError>(
                    ScaffoldError::NotADirectory,
                ),
                Some(DestinationFault::NotEmpty) => r == Err::<ScaffoldPlan, ScaffoldError>(
                    ScaffoldError::NotEmpty,
                ),
                Some(DestinationFault::Unlisted) => r matches Err(ScaffoldError::Io(t)) && f.folder.empty
                    matches Err(m) && t@ == m@,
                None => match f.current {
                    Some(Err(m)) => r matches Err(ScaffoldError::Io(t)) && t@ == m@,
                    Some(Ok(current)) if overlapping(current, destination) => r == Err::<
                        ScaffoldPlan,
                        ScaffoldError,
                    >(ScaffoldError::Overlap),
                    _ => r matches Ok(plan) && plan.destination@ == destination.text@,
                },
            },
        }
    }
}

pub struct ScaffoldService;

impl ScaffoldService {
    /// Decides whether a fresh configuration may be created in the folder.
    pub fn check(facts: &ScaffoldFacts) -> (r: Result<ScaffoldPlan, ScaffoldError>)
        ensures
            scaffold_checked(*facts, r),
    {
        if !facts.destination_absolute {
            return Err(ScaffoldError::NotAbsolute);
        }
        let destination = match &facts.destination {
            Err(m) => return Err(ScaffoldError::Io(m.clone())),
            Ok(d) => d,
        };
        if facts.folder.exists {
            if !facts.folder.is_dir {
                return Err(ScaffoldError::NotADirectory);
            }
            match &facts.folder.empty {
                Err(m) => return Err(ScaffoldError::Io(m.clone())),
                Ok(false) => return Err(ScaffoldError::NotEmpty),
                Ok(true) => {},
            }
        }
        match &facts.current {
            Some(Err(m)) => return Err(ScaffoldError::Io(m.clone())),
            Some(Ok(current)) => {
                if overlaps(current, destination) {
                    return Err(ScaffoldError::Overlap);
                }
            },
            None => {},
        }
        Ok(ScaffoldPlan { destination: destination.text.clone() })
    }
}

} // verus!
