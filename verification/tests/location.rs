use espanso_settings::{
    accept_stored_location, resolve_config_location, validate_directory, ConfigLocationStore,
    ConfigPathSource, DirectoryCheck, LocationError, LOCATION_FILE_VERSION,
};

fn existing(canonical: &str) -> DirectoryCheck {
    DirectoryCheck {
        empty: false,
        absolute: true,
        is_dir: true,
        canonical: Ok(canonical.to_string()),
    }
}

fn missing() -> DirectoryCheck {
    DirectoryCheck {
        empty: false,
        absolute: true,
        is_dir: false,
        canonical: Err("No such file or directory".to_string()),
    }
}

fn relative() -> DirectoryCheck {
    DirectoryCheck {
        empty: false,
        absolute: false,
        is_dir: true,
        canonical: Ok("/work/relative/config".to_string()),
    }
}

#[test]
fn precedence_is_cli_then_environment_then_persisted_then_default() {
    let cli = existing("/tmp/settings-location-precedence/cli");
    let environment = existing("/tmp/settings-location-precedence/environment");
    let persisted = "/tmp/settings-location-precedence/persisted".to_string();
    let default = existing("/tmp/settings-location-precedence/default");
    let store = ConfigLocationStore::new(
        "/tmp/settings-location-precedence/settings-location.json".to_string(),
    );
    assert_eq!(
        store.path(),
        "/tmp/settings-location-precedence/settings-location.json"
    );

    let resolved = resolve_config_location(
        Some(&cli),
        Some(&environment),
        Ok(Some(persisted.clone())),
        &default,
    )
    .unwrap();
    assert_eq!(resolved.path, "/tmp/settings-location-precedence/cli");
    assert_eq!(resolved.source, ConfigPathSource::Cli);

    let resolved =
        resolve_config_location(None, Some(&environment), Ok(Some(persisted.clone())), &default)
            .unwrap();
    assert_eq!(resolved.path, "/tmp/settings-location-precedence/environment");
    assert_eq!(resolved.source, ConfigPathSource::Environment);

    let resolved =
        resolve_config_location(None, None, Ok(Some(persisted.clone())), &default).unwrap();
    assert_eq!(resolved.path, persisted);
    assert_eq!(resolved.source, ConfigPathSource::Persisted);

    let resolved = resolve_config_location(None, None, Ok(None), &default).unwrap();
    assert_eq!(resolved.path, "/tmp/settings-location-precedence/default");
    assert_eq!(resolved.source, ConfigPathSource::PlatformDefault);
}

#[test]
fn persisted_location_rejects_relative_and_missing_paths() {
    assert!(validate_directory(&relative()).is_err());
    assert!(validate_directory(&missing()).is_err());
    assert!(accept_stored_location(LOCATION_FILE_VERSION, &relative()).is_err());
    assert!(accept_stored_location(LOCATION_FILE_VERSION, &missing()).is_err());
}

#[test]
fn a_bad_override_is_an_error_not_a_fallback() {
    let default = existing("/default");
    assert_eq!(
        resolve_config_location(Some(&missing()), None, Ok(None), &default),
        Err(LocationError::NotADirectory)
    );
    assert_eq!(
        resolve_config_location(None, Some(&relative()), Ok(None), &default),
        Err(LocationError::NotAbsolute)
    );
    assert_eq!(
        resolve_config_location(
            None,
            None,
            Err(LocationError::UnsupportedVersion),
            &default
        ),
        Err(LocationError::UnsupportedVersion)
    );
}

#[test]
fn directory_checks_in_order() {
    let blank = DirectoryCheck {
        empty: true,
        absolute: false,
        is_dir: false,
        canonical: Err(String::new()),
    };
    assert_eq!(validate_directory(&blank), Err(LocationError::NotAbsolute));
    assert_eq!(validate_directory(&missing()), Err(LocationError::NotADirectory));
    let unresolved = DirectoryCheck {
        empty: false,
        absolute: true,
        is_dir: true,
        canonical: Err("loop".to_string()),
    };
    assert_eq!(
        validate_directory(&unresolved),
        Err(LocationError::Canonicalize("loop".to_string()))
    );
    assert_eq!(validate_directory(&existing("/real")), Ok("/real".to_string()));
    assert_eq!(
        accept_stored_location(2, &existing("/real")),
        Err(LocationError::UnsupportedVersion)
    );
    assert_eq!(
        accept_stored_location(1, &existing("/real")),
        Ok("/real".to_string())
    );
}

#[test]
fn location_error_messages() {
    assert_eq!(
        LocationError::NotAbsolute.message(),
        "configuration directory must be an absolute path"
    );
    assert_eq!(
        LocationError::NotADirectory.message(),
        "configuration directory does not exist or is not a directory"
    );
    assert_eq!(
        LocationError::Canonicalize("x".to_string()).message(),
        "unable to canonicalize configuration directory"
    );
    assert_eq!(
        LocationError::UnsupportedVersion.message(),
        "unsupported configuration location version"
    );
    assert_eq!(LocationError::Unreadable("bad json".to_string()).message(), "bad json");
}
