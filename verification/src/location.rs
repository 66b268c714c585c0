//! Where the active configuration folder comes from: the command line, the
//! environment, the location Settings persisted, or the platform default,
//! in that order.
use vstd::prelude::*;
use crate::text::owned;

verus! {

/// The version of the persisted location file.
pub const LOCATION_FILE_VERSION: u8 = 1;

#[derive(Debug, Clone, Copy, PartialEq, Eq, Structural)]
pub enum ConfigPathSource {
    Cli,
    Environment,
    Persisted,
    PlatformDefault,
}

impl ConfigPathSource {
    /// The label shown next to the path.
    pub fn display_name(self) -> (r: &'static str)
        ensures
            r@ == match self {
                ConfigPathSource::Cli => "命令行覆盖"@,
                ConfigPathSource::Environment => "环境变量覆盖"@,
                ConfigPathSource::Persisted => "自定义目录"@,
                ConfigPathSource::PlatformDefault => "系统默认"@,
            },
    {
        match self {
            ConfigPathSource::Cli => "命令行覆盖",
            ConfigPathSource::Environment => "环境变量覆盖",
            ConfigPathSource::Persisted => "自定义目录",
            ConfigPathSource::PlatformDefault => "系统默认",
        }
    }

    /// Settings may only change a location that no override pins.
    pub fn allows_persistent_change(self) -> (r: bool)
        ensures
            r == !(self is Cli || self is Environment),
    {
        !matches!(self, ConfigPathSource::Cli | ConfigPathSource::Environment)
    }
}

#[derive(Debug, PartialEq, Eq)]
pub struct ResolvedConfigLocation {
    pub path: String,
    pub source: ConfigPathSource,
}

impl Clone for ResolvedConfigLocation {
    fn clone(&self) -> (r: Self)
        ensures
            r == *self,
    {
        ResolvedConfigLocation { path: self.path.clone(), source: self.source }
    }
}

/// Where the chosen location is persisted.
#[derive(Debug)]
pub struct ConfigLocationStore {
    path: String,
}

impl Clone for ConfigLocationStore {
    fn clone(&self) -> (r: Self)
        ensures
            r.path_text() == self.path_text(),
    {
        ConfigLocationStore { path: self.path.clone() }
    }
}

impl ConfigLocationStore {
    pub closed spec fn path_text(&self) -> Seq<char> {
        self.path@
    }

    pub fn new(path: String) -> (s: Self)
        ensures
            s.path_text() == path@,
    {
        ConfigLocationStore { path }
    }

    pub fn path(&self) -> (p: &str)
        ensures
            p@ == self.path_text(),
    {
        self.path.as_str()
    }
}

/// What the file system says of a candidate configuration folder.
#[derive(Debug, PartialEq, Eq)]
pub struct DirectoryCheck {
    /// The path's text is empty.
    pub empty: bool,
    pub absolute: bool,
    pub is_dir: bool,
    /// The canonical path, or why it could not be had.
    pub canonical: Result<String, String>,
}

#[derive(Debug, PartialEq, Eq)]
pub enum LocationError {
    NotAbsolute,
    NotADirectory,
    /// Canonicalisation failed; its text.
    Canonicalize(String),
    UnsupportedVersion,
    /// The persisted file could not be read or parsed; the text.
    Unreadable(String),
}

impl LocationError {
    pub fn message(&self) -> (m: String)
        ensures
            m@ == match self {
                LocationError::NotAbsolute => "configuration directory must be an absolute path"@,
                LocationError::NotADirectory => "configuration directory does not exist or is not a directory"@,
                LocationError::Canonicalize(_) => "unable to canonicalize configuration directory"@,
                LocationError::UnsupportedVersion => "unsupported configuration location version"@,
                LocationError::Unreadable(text) => text@,
            },
    {
        match self {
            LocationError::NotAbsolute => owned("configuration directory must be an absolute path"),
            LocationError::NotADirectory => owned(
                "configuration directory does not exist or is not a directory",
            ),
            LocationError::Canonicalize(_) => owned("unable to canonicalize configuration directory"),
            LocationError::UnsupportedVersion => owned("unsupported configuration location version"),
            LocationError::Unreadable(text) => text.clone(),
        }
    }
}

/// A configuration folder must be named by a non-empty absolute path, be a
/// directory, and have a canonical path, which is the result.
pub open spec fn directory_checked(c: DirectoryCheck, r: Result<String, LocationError>) -> bool {
    if c.empty || !c.absolute {
        r == Err::<String, LocationError>(LocationError::NotAbsolute)
    } else if !c.is_dir {
        r == Err::<String, LocationError>(LocationError::NotADirectory)
    } else {
        match c.canonical {
            Ok(p) => r matches Ok(q) && q@ == p@,
            Err(m) => r matches Err(LocationError::Canonicalize(t)) && t@ == m@,
        }
    }
}

pub fn validate_directory(check: &DirectoryCheck) -> (r: Result<String, LocationError>)
    ensures
        directory_checked(*check, r),
{
    if check.empty || !check.absolute {
        return Err(LocationError::NotAbsolute);
    }
    if !check.is_dir {
        return Err(LocationError::NotADirectory);
    }
    match &check.canonical {
        Ok(p) => Ok(p.clone()),
        Err(m) => Err(LocationError::Canonicalize(m.clone())),
    }
}

/// The persisted location is accepted when its file has this library's
/// version and names a valid folder.
pub fn accept_stored_location(version: u8, config_dir: &DirectoryCheck) -> (r: Result<
    String,
    LocationError,
>)
    ensures
        version != LOCATION_FILE_VERSION ==> r == Err::<String, LocationError>(
            LocationError::UnsupportedVersion,
        ),
        version == LOCATION_FILE_VERSION ==> directory_checked(*config_dir, r),
{
    if version != LOCATION_FILE_VERSION {
        return Err(LocationError::UnsupportedVersion);
    }
    validate_directory(config_dir)
}

/// The location a folder check resolves to, with its source.
pub open spec fn resolved_from(
    c: DirectoryCheck,
    source: ConfigPathSource,
    r: Result<ResolvedConfigLocation, LocationError>,
) -> bool {
    exists|d: Result<String, LocationError>|
        #![trigger directory_checked(c, d)]
        directory_checked(c, d) && match d {
            Ok(p) => r matches Ok(l) && l.path@ == p@ && l.source == source,
            Err(e) => r == Err::<ResolvedConfigLocation, LocationError>(e),
        }
}

fn resolved(check: &DirectoryCheck, source: ConfigPathSource) -> (r: Result<
    ResolvedConfigLocation,
    LocationError,
>)
    ensures
        resolved_from(*check, source, r),
{
    let d = validate_directory(check);
    match d {
        Ok(path) => Ok(ResolvedConfigLocation { path, source }),
        Err(e) => Err(e),
    }
}

/// Picks the configuration folder: the command line wins, then the
/// environment, then the persisted location, then the platform default.
/// An override that names an unusable folder is an error, not a fallback.
/// `persisted` is what loading the persisted location gave: a valid folder,
/// nothing, or why it was refused; it is consulted only when neither
/// override is given.
pub fn resolve_config_location(
    cli: Option<&DirectoryCheck>,
    environment: Option<&DirectoryCheck>,
    persisted: Result<Option<String>, LocationError>,
    platform_default: &DirectoryCheck,
) -> (r: Result<ResolvedConfigLocation, LocationError>)
    ensures
        match (cli, environment) {
            (Some(c), _) => resolved_from(*c, ConfigPathSource::Cli, r),
            (None, Some(e)) => resolved_from(*e, ConfigPathSource::Environment, r),
            (None, None) => match persisted {
                Err(e) => r == Err::<ResolvedConfigLocation, LocationError>(e),
                Ok(Some(p)) => r matches Ok(l) && l.path@ == p@ && l.source == ConfigPathSource::Persisted,
                Ok(None) => resolved_from(*platform_default, ConfigPathSource::PlatformDefault, r),
            },
        },
{
    if let Some(path) = cli {
        return resolved(path, ConfigPathSource::Cli);
    }
    if let Some(path) = environment {
        return resolved(path, ConfigPathSource::Environment);
    }
    match persisted {
        Err(e) => Err(e),
        Ok(Some(path)) => Ok(ResolvedConfigLocation { path, source: ConfigPathSource::Persisted }),
        Ok(None) => resolved(platform_default, ConfigPathSource::PlatformDefault),
    }
}

} // verus!
